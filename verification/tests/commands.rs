use bittorrent::commands::{decode, decode_hex, ingest_all, report};
use bittorrent::info::{FileInfo, Info, MetaInfo};
use bittorrent::util::{bytes_to_hex, sha1_hash};

#[test]
fn texts_are_decoded() {
    assert_eq!(decode("li1e1:xe").unwrap(), "[ 1, b\"x\" ]");
    assert_eq!(decode("").unwrap_err().details(), "No data");
}

#[test]
fn hexadecimal_texts_are_decoded() {
    let (values, error) = decode_hex("693165693265").unwrap();
    assert!(error.is_none());
    let shown: Vec<String> = values.iter().map(|value| value.display()).collect();
    assert_eq!(shown, vec!["1".to_string(), "2".to_string()]);
    let (values, error) = decode_hex("69316578").unwrap();
    assert_eq!(values.len(), 1);
    assert_eq!(error.unwrap().details(), "Invalid bencoded value");
    assert_eq!(decode_hex("6").unwrap_err().details(), "Odd number of digits");
    assert_eq!(ingest_all(b"").0.len(), 0);
}

#[test]
fn torrents_are_reported() {
    let meta_info = MetaInfo {
        announce_list: vec!["http://one".to_string(), "http://two".to_string()],
        info: Info {
            name: "n".to_string(),
            piece_length: 4,
            pieces: vec![[1; 20], [2; 20]],
            file_info: FileInfo::Length(6),
        },
    };
    let hash = sha1_hash(&meta_info.info.to_bencoded().encode().unwrap());
    assert_eq!(
        report(&meta_info).unwrap(),
        vec![
            "Tracker URL: http://one".to_string(),
            "Length: 6".to_string(),
            format!("Info Hash: {}", bytes_to_hex(&hash)),
            "Piece Length: 2".to_string(),
            "Piece Hashes:".to_string(),
            "01".repeat(20),
            "02".repeat(20),
        ]
    );
}
