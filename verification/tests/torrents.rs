use bittorrent::bencode::BencodedValue;
use bittorrent::error::bterror;
use bittorrent::info::{number_of, usize_of, File, FileInfo, Info, MetaInfo};
use bittorrent::magnet::Magnet;
use bittorrent::torrent_source::TorrentSource;
use bittorrent::util::{bytes_to_hex, sha1_hash};

fn sample_info() -> Info {
    Info {
        name: "sample".to_string(),
        piece_length: 16,
        pieces: vec![[1u8; 20], [2u8; 20]],
        file_info: FileInfo::Length(20),
    }
}

fn several_files() -> FileInfo {
    FileInfo::Files(vec![
        File {
            length: 12,
            path: vec!["a".to_string(), "b.txt".to_string()],
        },
        File {
            length: 8,
            path: vec!["c".to_string()],
        },
    ])
}

fn meta_info_of(info: Info) -> MetaInfo {
    MetaInfo {
        announce_list: vec!["http://one".to_string(), "udp://two:80".to_string()],
        info,
    }
}

fn value_of(text: &[u8]) -> BencodedValue {
    let mut rest = text;
    BencodedValue::ingest(&mut rest).unwrap()
}

fn info_error(text: &str) -> String {
    Info::from_bencoded(&value_of(text.as_bytes()))
        .unwrap_err()
        .details()
}

#[test]
fn info_reads_back_from_its_dictionary() {
    let info = sample_info();
    let read = Info::from_bencoded(&info.to_bencoded()).unwrap();
    assert_eq!(read.name, "sample");
    assert_eq!(read.piece_length, 16);
    assert_eq!(read.pieces, info.pieces);
    assert!(matches!(read.file_info, FileInfo::Length(20)));

    let mut info = sample_info();
    info.file_info = several_files();
    let read = Info::from_bencoded(&info.clone().to_bencoded()).unwrap();
    match read.file_info {
        FileInfo::Files(files) => {
            assert_eq!(files.len(), 2);
            assert_eq!(files[0].length, 12);
            assert_eq!(files[0].path, vec!["a".to_string(), "b.txt".to_string()]);
            assert_eq!(files[1].path, vec!["c".to_string()]);
        }
        FileInfo::Length(_) => panic!("one file"),
    }
}

#[test]
fn meta_info_reads_back_from_its_dictionary() {
    let meta_info = meta_info_of(sample_info());
    let value = meta_info.to_bencoded();
    let read = MetaInfo::from_bencoded(&value).unwrap();
    assert_eq!(read.announce_list, meta_info.announce_list);
    assert_eq!(read.info.name, "sample");
    let nobody = MetaInfo {
        announce_list: vec![],
        info: sample_info(),
    };
    let read = MetaInfo::from_bencoded(&nobody.to_bencoded()).unwrap();
    assert!(read.announce_list.is_empty());
}

#[test]
fn broken_info_is_refused() {
    assert_eq!(info_error("i1e"), "Invalid info");
    assert_eq!(info_error("de"), "Missing name");
    assert_eq!(info_error("d4:name1:ae"), "Missing piece length");
    assert_eq!(
        info_error("d4:name1:a12:piece lengthi-1ee"),
        "out of range integral type conversion attempted"
    );
    assert_eq!(info_error("d4:name1:a12:piece lengthi1ee"), "Missing pieces");
    assert_eq!(
        info_error("d4:name1:a12:piece lengthi1e6:pieces0:e"),
        "Missing length or path field"
    );
    assert_eq!(
        info_error("d5:filesldee4:name1:a12:piece lengthi1e6:pieces0:e"),
        "Missing length"
    );
    assert_eq!(
        info_error("d5:filesld6:lengthi1eee4:name1:a12:piece lengthi1e6:pieces0:e"),
        "Missing path"
    );
}

#[test]
fn leftover_bytes_of_hashes_are_dropped() {
    let mut text = b"d6:lengthi5e4:name1:a12:piece lengthi1e6:pieces25:".to_vec();
    text.extend_from_slice(&[7u8; 25]);
    text.push(b'e');
    let info = Info::from_bencoded(&value_of(&text)).unwrap();
    assert_eq!(info.pieces, vec![[7u8; 20]]);
}

#[test]
fn meta_info_is_read_from_a_file() {
    let mut text = b"d8:announce10:http://one13:announce-listll12:udp://two:80e3:bade4:info".to_vec();
    text.extend_from_slice(b"d6:lengthi20e4:name6:sample12:piece lengthi16e6:pieces20:");
    text.extend_from_slice(&[3u8; 20]);
    text.extend_from_slice(b"ee");
    let meta_info = MetaInfo::from_file(Ok(text)).unwrap();
    assert_eq!(
        meta_info.announce_list,
        vec!["http://one".to_string(), "udp://two:80".to_string()]
    );
    assert_eq!(meta_info.length(), 20);
    assert_eq!(meta_info.checked_length(), Some(20));
    assert_eq!(
        MetaInfo::from_file(Err(bterror("not there"))).unwrap_err().details(),
        "Error reading file: not there"
    );
    assert_eq!(
        MetaInfo::from_file(Ok(b"i1e".to_vec())).unwrap_err().details(),
        "Invalid meta info"
    );
    assert_eq!(
        MetaInfo::from_file(Ok(b"de".to_vec())).unwrap_err().details(),
        "Missing info"
    );
    assert_eq!(
        MetaInfo::from_file(Ok(b"".to_vec())).unwrap_err().details(),
        "No data"
    );
}

#[test]
fn the_info_hash_is_that_of_the_dictionary() {
    let meta_info = meta_info_of(sample_info());
    let mut text = b"dlengthi20enamesamplepiece lengthi16epieces".to_vec();
    text.extend_from_slice(&[1u8; 20]);
    text.extend_from_slice(&[2u8; 20]);
    text.push(b'e');
    assert_eq!(meta_info.info.to_bencoded().encode().unwrap(), text);
    assert_eq!(meta_info.info_hash().unwrap(), sha1_hash(&text));
}

#[test]
fn lengths_are_summed() {
    let mut info = sample_info();
    info.file_info = several_files();
    assert_eq!(meta_info_of(info).length(), 20);
    let mut info = sample_info();
    info.file_info = FileInfo::Files(vec![
        File {
            length: usize::MAX,
            path: vec![],
        },
        File {
            length: 1,
            path: vec![],
        },
    ]);
    assert_eq!(meta_info_of(info).checked_length(), None);
}

#[test]
fn files_are_planned() {
    let plan = meta_info_of(sample_info()).save_plan();
    assert_eq!(plan.len(), 1);
    assert_eq!(plan[0].path, vec!["sample".to_string()]);
    assert_eq!(plan[0].length, None);
    let mut info = sample_info();
    info.file_info = several_files();
    let plan = meta_info_of(info).save_plan();
    assert_eq!(
        plan[0].path,
        vec!["sample".to_string(), "a".to_string(), "b.txt".to_string()]
    );
    assert_eq!(plan[0].length, Some(12));
    assert_eq!(plan[1].path, vec!["sample".to_string(), "c".to_string()]);
    assert_eq!(plan[1].length, Some(8));
}

#[test]
fn lengths_keep_their_bits() {
    assert_eq!(number_of(5), 5);
    assert_eq!(number_of(usize::MAX), -1);
    assert_eq!(usize_of(-1), usize::MAX);
    assert_eq!(usize_of(number_of(usize::MAX - 9)), usize::MAX - 9);
}

const HASH: &str = "0123456789abcdef0123456789ABCDEF01234567";

fn magnet_error(uri: &str) -> String {
    Magnet::try_from_uri(uri.to_string())
        .unwrap()
        .unwrap_err()
        .details()
}

#[test]
fn magnet_links_are_read() {
    let uri = format!(
        "magnet:?xt=urn:btih:{HASH}&dn=name&tr=http://a&junk&tr=udp://b&x.pe=1.2.3.4:5"
    );
    let magnet = Magnet::from_uri(uri).unwrap();
    assert_eq!(bytes_to_hex(&magnet.xt), HASH.to_lowercase());
    assert_eq!(magnet.dn, Some("name".to_string()));
    assert_eq!(magnet.tr, vec!["http://a".to_string(), "udp://b".to_string()]);
    assert_eq!(magnet.xpe, vec!["1.2.3.4:5".to_string()]);
    let plain = Magnet::from_uri(format!("magnet:?xt=urn:btih:{HASH}")).unwrap();
    assert_eq!(plain.clone().xt, magnet.xt);
    assert_eq!(plain.dn, None);
}

#[test]
fn magnet_links_with_multihashes_are_read() {
    let uri = format!("magnet:?xt=urn:btmh:\u{11}\u{14}{}", "abcdefghijklmnopqrst");
    let magnet = Magnet::from_uri(uri).unwrap();
    assert_eq!(&magnet.xt[..], b"abcdefghijklmnopqrst");
    let short = format!("magnet:?xt=urn:btmh:\u{11}\u{03}abc");
    assert_eq!(
        magnet_error(&short),
        "could not convert slice to array"
    );
    assert!(!magnet_error("magnet:?xt=urn:btmh:\u{11}").is_empty());
}

#[test]
fn broken_magnet_links_are_refused() {
    assert_eq!(magnet_error("http://x"), "Invalid magnet uri");
    assert_eq!(magnet_error("magnet:?dn=x"), "Missing xt");
    assert_eq!(magnet_error("magnet:?"), "Missing xt");
    assert_eq!(magnet_error("magnet:?xt=urn:sha1:abc"), "Invalid xt");
    assert_eq!(
        magnet_error("magnet:?foo=bar&xt=x"),
        "Unknown key in magnet uri: foo"
    );
    assert_eq!(
        magnet_error("magnet:?xt=urn:btih:abc"),
        "Odd number of digits"
    );
    assert_eq!(
        magnet_error("magnet:?xt=urn:btih:abcd"),
        "Could not decode info hash"
    );
    assert!(Magnet::try_from_uri("magnet:?xt=short".to_string()).is_none());
}

#[test]
fn torrents_are_known_from_links_and_files() {
    let uri = format!("magnet:?xt=urn:btih:{HASH}&tr=http://a");
    assert!(TorrentSource::is_magnet(&uri));
    let source = TorrentSource::from_string(&uri, Err(bterror("unused"))).unwrap();
    assert_eq!(bytes_to_hex(&source.hash().unwrap()), HASH.to_lowercase());
    assert_eq!(source.name(), HASH.to_lowercase());
    assert_eq!(source.trackers(), vec!["http://a".to_string()]);
    let named = TorrentSource::from_string(&format!("{uri}&dn=x"), Err(bterror("unused"))).unwrap();
    assert_eq!(named.clone().name(), "x");

    let mut text = b"d8:announce10:http://one4:info".to_vec();
    text.extend_from_slice(b"d6:lengthi20e4:name6:sample12:piece lengthi16e6:pieces0:ee");
    let source = TorrentSource::try_from_string("file.torrent", Ok(text)).unwrap().unwrap();
    assert!(!TorrentSource::is_magnet("file.torrent"));
    assert_eq!(source.name(), "sample");
    assert_eq!(source.trackers(), vec!["http://one".to_string()]);
    assert_eq!(
        source.hash().unwrap(),
        sha1_hash(b"dlengthi20enamesamplepiece lengthi16epiecese")
    );
    assert!(TorrentSource::try_from_string("magnet:?xt=x", Ok(vec![])).is_none());
    assert_eq!(
        TorrentSource::from_string("gone", Err(bterror("no file"))).unwrap_err().details(),
        "Error reading file: no file"
    );
}
