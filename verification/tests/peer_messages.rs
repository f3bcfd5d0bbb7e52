use bittorrent::json::{object, Number, Value};
use bittorrent::peer::has;
use bittorrent::peer::message::{
    Codec, ExtensionHandshake, ExtensionMessage, ExtensionMessageCodec, ExtensionMetadata,
    HandshakeMessage, PeerMessage, PeerMessageCodec, PieceMessage, RequestMessage,
};
use bittorrent::peer::utp::{UtpMessage, UtpNumbers};

fn codec() -> PeerMessageCodec {
    PeerMessageCodec::new(vec![("ut_metadata".to_string(), 2)])
}

fn body_of(message: &PeerMessage) -> Vec<u8> {
    let bytes = codec().encode(message).unwrap();
    assert_eq!(
        u32::from_be_bytes([bytes[0], bytes[1], bytes[2], bytes[3]]) as usize,
        bytes.len() - 4
    );
    bytes[4..].to_vec()
}

fn shown_again(message: PeerMessage) {
    let shown = format!("{:?}", message);
    let read = codec().decode(&body_of(&message)).unwrap();
    assert_eq!(format!("{:?}", read), shown);
}

fn extension_error(bytes: &[u8]) -> String {
    ExtensionMessageCodec::new(vec![
        ("ut_metadata".to_string(), 2),
        ("other".to_string(), 3),
    ])
    .decode(bytes)
    .unwrap_err()
    .details()
}

#[test]
fn messages_read_back() {
    let request = RequestMessage {
        index: 1,
        begin: 2,
        length: 0xdead_beef,
    };
    shown_again(PeerMessage::Keepalive);
    shown_again(PeerMessage::Choke);
    shown_again(PeerMessage::Unchoke);
    shown_again(PeerMessage::Interested);
    shown_again(PeerMessage::NotInterested);
    shown_again(PeerMessage::Have(7));
    shown_again(PeerMessage::Bitfield(vec![
        true, false, true, false, false, false, false, true, false, false, false, false, false,
        false, false, true,
    ]));
    shown_again(PeerMessage::Request(request));
    shown_again(PeerMessage::Piece(PieceMessage {
        index: 3,
        begin: 4,
        block: vec![9, 8, 7],
    }));
    shown_again(PeerMessage::Cancel(request));
    shown_again(PeerMessage::Port(6881));
    shown_again(PeerMessage::HaveAll);
    shown_again(PeerMessage::HaveNone);
    shown_again(PeerMessage::RejectRequest(request));
    shown_again(PeerMessage::AllowFast(5));
}

#[test]
fn messages_have_their_codes() {
    assert_eq!(body_of(&PeerMessage::Keepalive), Vec::<u8>::new());
    assert_eq!(body_of(&PeerMessage::Have(258)), vec![4, 0, 0, 1, 2]);
    assert_eq!(
        body_of(&PeerMessage::Bitfield(vec![true, false, false, false, false, false, false, true])),
        vec![5, 0x81]
    );
    assert_eq!(body_of(&PeerMessage::Port(258)), vec![9, 1, 2]);
    assert_eq!(body_of(&PeerMessage::HaveAll), vec![14]);
    assert_eq!(body_of(&PeerMessage::AllowFast(1)), vec![17, 0, 0, 0, 1]);
    assert_eq!(
        codec().encode(&PeerMessage::Interested).unwrap(),
        vec![0, 0, 0, 1, 2]
    );
}

#[test]
fn broken_messages_are_refused() {
    assert_eq!(
        codec().decode(&[99]).unwrap_err().details(),
        "Invalid peer message: 99"
    );
    assert_eq!(
        codec().decode(&[6, 0, 0]).unwrap_err().details(),
        "Insufficient bytes"
    );
    assert_eq!(
        codec().decode(&[7, 0, 0]).unwrap_err().details(),
        "Insufficient bytes"
    );
    assert_eq!(
        RequestMessage::decode(&[0; 11]).unwrap_err().details(),
        "Insufficient bytes"
    );
    assert_eq!(
        PieceMessage::decode(&[0; 7]).unwrap_err().details(),
        "Insufficient bytes"
    );
}

#[test]
fn requests_and_pieces_have_their_bytes() {
    let request = RequestMessage {
        index: 1,
        begin: 2,
        length: 3,
    };
    let bytes = request.encode().unwrap();
    assert_eq!(bytes, vec![0, 0, 0, 1, 0, 0, 0, 2, 0, 0, 0, 3]);
    assert_eq!(RequestMessage::decode(&bytes).unwrap(), request);
    let piece = PieceMessage {
        index: 1,
        begin: 2,
        block: vec![5, 6],
    };
    let bytes = piece.encode().unwrap();
    assert_eq!(bytes, vec![0, 0, 0, 1, 0, 0, 0, 2, 5, 6]);
    assert_eq!(PieceMessage::decode(&bytes).unwrap().block, vec![5, 6]);
}

#[test]
fn handshakes_read_back() {
    let handshake = HandshakeMessage {
        info_hash: [7; 20],
        peer_id: b"00112233445566778899".to_vec(),
    };
    let bytes = handshake.encode();
    assert_eq!(bytes.len(), 68);
    assert_eq!(&bytes[..20], b"\x13BitTorrent protocol");
    assert_eq!(&bytes[20..28], &[0, 0, 0, 0, 0, 0x18, 0, 0x05]);
    let read = HandshakeMessage::decode(&bytes).unwrap();
    assert_eq!(read.info_hash, handshake.info_hash);
    assert_eq!(read.peer_id, handshake.peer_id);
    assert_eq!(
        codec().encode(&PeerMessage::Handshake(handshake)).unwrap(),
        bytes
    );
}

#[test]
fn extension_handshakes_read_back() {
    let messages = match object(vec![("ut_metadata", Value::Number(Number::from_u64(2)))]) {
        Value::Object(messages) => messages,
        _ => panic!("not an object"),
    };
    let handshake = ExtensionHandshake {
        messages: Some(messages),
        version: Some("client".to_string()),
        reqq: Some(Number::from_u64(500)),
        port: Some(6881),
        ..Default::default()
    };
    let bytes = body_of(&PeerMessage::Extension(ExtensionMessage::Handshake(handshake)));
    let expected: &[u8] = b"\x14\x00d1:md11:ut_metadatai2ee1:pi6881e4:reqqi500e1:v6:cliente";
    assert_eq!(bytes, expected.to_vec());
    match codec().decode(&bytes).unwrap() {
        PeerMessage::Extension(ExtensionMessage::Handshake(read)) => {
            assert_eq!(read.version, Some("client".to_string()));
            assert_eq!(read.port, Some(6881));
            assert_eq!(read.reqq.unwrap().as_u64(), Some(500));
            assert_eq!(read.yourip, None);
            let learned = PeerMessageCodec::from_handshake(&read).unwrap();
            let metadata = ExtensionMessage::Metadata(
                ExtensionMetadata {
                    msg_type: 0,
                    piece: 1,
                    total_size: None,
                },
                None,
            );
            assert_eq!(
                learned.encode(&PeerMessage::Extension(metadata)).unwrap()[4..].to_vec(),
                b"\x14\x02d8:msg_typei0e5:piecei1ee".to_vec()
            );
        }
        _ => panic!("not a handshake"),
    }
}

#[test]
fn metadata_messages_read_back() {
    let metadata = ExtensionMetadata {
        msg_type: 1,
        piece: 0,
        total_size: Some(3),
    };
    shown_again(PeerMessage::Extension(ExtensionMessage::Metadata(
        metadata,
        Some(vec![1, 2, 3]),
    )));
    shown_again(PeerMessage::Extension(ExtensionMessage::Metadata(metadata, None)));
}

#[test]
fn extension_messages_are_checked() {
    assert_eq!(extension_error(&[]), "Insufficient bytes");
    assert_eq!(extension_error(&[9]), "Unrecognized extension code: 9");
    assert_eq!(extension_error(b"\x03de"), "Unrecognized extension name: other");
    assert_eq!(
        extension_error(b"\x00i5e"),
        "invalid type: integer `5`, expected struct ExtensionHandshake"
    );
    assert_eq!(
        extension_error(b"\x00d1:pi70000ee"),
        "invalid value: integer `70000`, expected u16"
    );
    assert_eq!(
        extension_error(b"\x00d1:p1:xe"),
        "invalid type: string \"x\", expected u16"
    );
    assert_eq!(
        extension_error(b"\x00d1:vi1ee"),
        "invalid type: integer `1`, expected a string"
    );
    assert_eq!(
        extension_error(b"\x00d1:mi1ee"),
        "invalid type: integer `1`, expected a map"
    );
    assert_eq!(
        extension_error(b"\x00d4:reqqdee"),
        "invalid type: map, expected a JSON number"
    );
    assert_eq!(
        extension_error(b"\x00le"),
        "invalid length 0, expected struct ExtensionHandshake with 8 elements"
    );
    assert_eq!(extension_error(b"\x02de"), "missing field `msg_type`");
    assert_eq!(
        extension_error(b"\x02d8:msg_typei1ee"),
        "missing field `piece`"
    );
    assert_eq!(
        extension_error(b"\x02d8:msg_typei-1ee"),
        "invalid value: integer `-1`, expected usize"
    );
    assert_eq!(
        extension_error(b"\x02li1ei2ei3ei4ee"),
        "invalid length 4, expected fewer elements in array"
    );
    assert_eq!(
        ExtensionMessageCodec::default()
            .encode(&ExtensionMessage::Metadata(
                ExtensionMetadata {
                    msg_type: 0,
                    piece: 0,
                    total_size: None,
                },
                None,
            ))
            .unwrap_err()
            .details(),
        "Extension 'ut_metadata' is unsupported by peer"
    );
}

#[test]
fn arrays_stand_for_records() {
    let codec = ExtensionMessageCodec::new(vec![("ut_metadata".to_string(), 2)]);
    match codec.decode(b"\x02li1ei2ei3ee").unwrap() {
        ExtensionMessage::Metadata(metadata, None) => {
            assert_eq!(metadata.msg_type, 1);
            assert_eq!(metadata.piece, 2);
            assert_eq!(metadata.total_size, Some(3));
        }
        _ => panic!("not metadata"),
    }
}

#[test]
fn codes_of_extensions_are_numbers() {
    let messages = match object(vec![("x", Value::Text("y".to_string()))]) {
        Value::Object(messages) => messages,
        _ => panic!("not an object"),
    };
    let handshake = ExtensionHandshake {
        messages: Some(messages),
        ..Default::default()
    };
    assert_eq!(
        PeerMessageCodec::from_handshake(&handshake).unwrap_err().details(),
        "Invalid extension handshake format"
    );
    let wide = match object(vec![("ut_metadata", Value::Number(Number::from_u64(258)))]) {
        Value::Object(messages) => messages,
        _ => panic!("not an object"),
    };
    let codec = PeerMessageCodec::from_handshake(&ExtensionHandshake {
        messages: Some(wide),
        ..Default::default()
    })
    .unwrap();
    assert!(codec.clone().decode(b"\x14\x02d8:msg_typei0e5:piecei1ee").is_ok());
}

#[test]
fn peers_have_pieces() {
    assert!(has(&vec![false, true], 1));
    assert!(!has(&vec![false, true], 0));
    assert!(!has(&vec![false, true], 2));
}

#[test]
fn transport_numbers_begin() {
    let numbers = UtpNumbers::new();
    assert_eq!((numbers.connection_id, numbers.seq_nr, numbers.ack_nr), (0, 1, 0));
    assert_ne!(UtpMessage::Data, UtpMessage::Fin);
}

#[test]
fn fields_of_every_kind_are_checked() {
    let refused = |name: &str, value: Value| {
        ExtensionHandshake::from_value(&object(vec![(name, value)]))
            .unwrap_err()
            .details()
    };
    assert_eq!(
        refused("p", Value::Bool(true)),
        "invalid type: boolean `true`, expected u16"
    );
    assert_eq!(
        refused("v", Value::Bool(false)),
        "invalid type: boolean `false`, expected a string"
    );
    assert_eq!(
        refused("reqq", Value::Array(vec![])),
        "invalid type: sequence, expected a JSON number"
    );
    assert_eq!(
        ExtensionMetadata::from_value(&Value::Null).unwrap_err().details(),
        "invalid type: null, expected struct ExtensionMetadata"
    );
    assert_eq!(
        ExtensionMetadata::from_value(&object(vec![("msg_type", Value::Null)]))
            .unwrap_err()
            .details(),
        "invalid type: null, expected usize"
    );
    let handshake = ExtensionHandshake::from_value(&Value::Array(vec![
        Value::Null,
        Value::Number(Number::from_u64(7)),
        Value::Text("v".to_string()),
        Value::Null,
        Value::Null,
        Value::Text("ip".to_string()),
        Value::Null,
        Value::Number(Number::from_i64(-1)),
    ]))
    .unwrap();
    assert_eq!(handshake.port, Some(7));
    assert_eq!(handshake.version, Some("v".to_string()));
    assert_eq!(handshake.ipv4, Some("ip".to_string()));
    assert!(handshake.messages.is_none() && handshake.reqq.is_none());
    assert_eq!(handshake.metadata_size.unwrap().as_u64(), None);
    assert!(matches!(handshake.to_value(), Value::Object(_)));
}
