use bittorrent::be::{read_be_u16, read_be_u32, read_be_u64, write_be};
use bittorrent::bytes::{escaped_byte_to_string, Bytes};
use bittorrent::error::{bterror, bterror_chain, bterror_with, BitTorrentError};
use bittorrent::net::{IpAddr, Ipv4Addr, Ipv6Addr, SocketAddr, SocketAddrV4, SocketAddrV6};
use bittorrent::types;
use bittorrent::util::{
    bytes_to_hex, can_cap_length, cap_length, check_killed, decode_bitfield_be,
    encode_bitfield_be, hex_to_bytes, querystring_encode, sha1_hash, time_left, PendingRead,
};

fn v4(bits: u32, port: u16) -> SocketAddrV4 {
    SocketAddrV4 {
        ip: Ipv4Addr { bits },
        port,
    }
}

#[test]
fn errors_describe_themselves() {
    let error = BitTorrentError::new("it broke".to_string());
    assert_eq!(error.details(), "it broke");
    assert_eq!(error.display(), "BitTorrent Error: it broke");
    assert_eq!(bterror("a").details(), "a");
    assert_eq!(bterror_with("a: ", "b").details(), "a: b");
    let chain = vec!["a".to_string(), "b".to_string(), "c".to_string()];
    assert_eq!(bterror_chain(&chain).details(), "a: b: c");
    assert_eq!(bterror_chain(&vec![]).details(), "");
}

#[test]
fn hex_digits_read_back() {
    assert_eq!(bytes_to_hex(&[0x00, 0x0f, 0xa5, 0xff]), "000fa5ff");
    assert_eq!(hex_to_bytes("000FA5ff").unwrap(), vec![0x00, 0x0f, 0xa5, 0xff]);
    assert_eq!(hex_to_bytes("").unwrap(), Vec::<u8>::new());
    assert_eq!(hex_to_bytes("abc").unwrap_err().details(), "Odd number of digits");
    assert_eq!(
        hex_to_bytes("0g").unwrap_err().details(),
        "Invalid character 'g' at position 1"
    );
    let bytes: Vec<u8> = (0..=255).collect();
    assert_eq!(hex_to_bytes(&bytes_to_hex(&bytes)).unwrap(), bytes);
}

#[test]
fn sha1_is_computed() {
    assert_eq!(
        bytes_to_hex(&sha1_hash(b"")),
        "da39a3ee5e6b4b0d3255bfef95601890afd80709"
    );
    assert_eq!(
        bytes_to_hex(&sha1_hash(b"abc")),
        "a9993e364706816aba3e25717850c26c9cd0d89d"
    );
}

#[test]
fn bits_of_a_byte_read_back() {
    assert_eq!(
        decode_bitfield_be(0b1010_0001),
        [true, false, true, false, false, false, false, true]
    );
    for byte in 0..=255u8 {
        assert_eq!(encode_bitfield_be(decode_bitfield_be(byte)), byte);
    }
}

#[test]
fn query_strings_are_escaped() {
    assert_eq!(querystring_encode(b"aZ09-_.~"), "aZ09-_.~");
    assert_eq!(querystring_encode(&[0x00, b' ', b'%', 0xff]), "%00%20%25%ff");
}

#[test]
fn long_messages_are_capped() {
    assert_eq!(cap_length("short".to_string(), 10), "short");
    assert_eq!(cap_length("0123456789".to_string(), 10), "0123456789");
    assert_eq!(cap_length("0123456789a".to_string(), 10), "0123456...");
    assert!(can_cap_length("0123456789a", 10));
    assert!(!can_cap_length("0123456789a", 2));
    assert!(!can_cap_length("012345\u{e9}\u{e9}\u{e9}\u{e9}", 10));
}

#[test]
fn reads_collect_chunks() {
    let mut read = PendingRead::new(5);
    assert!(read.receive(b"ab", false).is_ok());
    assert!(read.receive(b"", false).is_ok());
    assert_eq!(read.missing, 3);
    assert_eq!(
        read.receive(b"", true).unwrap_err().details(),
        "Tcp read timeout"
    );
    assert!(read.receive(b"cde", true).is_ok());
    assert_eq!(read.missing, 0);
    assert_eq!(read.bytes, b"abcde".to_vec());
    assert!(check_killed(false).is_ok());
    assert_eq!(check_killed(true).unwrap_err().details(), "Peer killed");
    assert_eq!(time_left(10_000_000, 1_000_000), 9_000_000);
    assert_eq!(time_left(1_000_000, 10_000_000), 1_000_000);
    assert_eq!(time_left(1_500_000, 1_000_000), 1_000_000);
}

#[test]
fn numbers_read_back_from_big_endian_bytes() {
    assert_eq!(write_be(0x0102_0304, 4), vec![1, 2, 3, 4]);
    assert_eq!(write_be(0x1_02_03, 2), vec![2, 3]);
    assert_eq!(read_be_u16(&[1, 2]), 0x0102);
    assert_eq!(read_be_u32(&write_be(0xdead_beef, 4)), 0xdead_beef);
    assert_eq!(read_be_u64(&write_be(u64::MAX as u128, 8)), u64::MAX);
}

#[test]
fn bytes_are_shown_with_escapes() {
    assert_eq!(Bytes::from_text("spam").to_string(), "spam");
    assert_eq!(escaped_byte_to_string(0xff), "\\xff");
    assert_eq!(escaped_byte_to_string(0x00), "\\x00");
    assert_eq!(escaped_byte_to_string(b'a'), "a");
    assert_eq!(
        Bytes::from_slice(&[b'a', 0x80, b'b']).into_string(),
        "a\\x80b"
    );
    assert_eq!(Bytes::from_slice(&[1, 2]).into_inner(), vec![1, 2]);
}

#[test]
fn addresses_read_back_from_their_bytes() {
    let address = v4(0x7f00_0001, 6881);
    let bytes = Bytes::from_socket_addr_v4(address);
    assert_eq!(bytes.0, vec![127, 0, 0, 1, 0x1a, 0xe1]);
    assert_eq!(SocketAddrV4::from_bytes(&bytes.0), address);
    let v6 = SocketAddrV6 {
        ip: Ipv6Addr { bits: 1 },
        port: 80,
        flowinfo: 0,
        scope_id: 0,
    };
    let bytes = Bytes::from_socket_addr_v6(v6);
    assert_eq!(bytes.0.len(), 18);
    assert_eq!(SocketAddrV6::from_bytes(&bytes.0), v6);
    assert_eq!(
        SocketAddr::from_bytes(&bytes.0).unwrap(),
        SocketAddr::V6(v6)
    );
    assert_eq!(
        SocketAddr::from_bytes(&Bytes::from_socket_addr(SocketAddr::V4(address)).0).unwrap(),
        SocketAddr::V4(address)
    );
    assert_eq!(
        SocketAddr::from_bytes(&[1, 2, 3]).unwrap_err().details(),
        "Invalid socket address: 3"
    );
    let ip = IpAddr::V4(Ipv4Addr { bits: 0x0a00_0001 });
    assert_eq!(Bytes::from_ip_addr(ip).0, vec![10, 0, 0, 1]);
    assert_eq!(IpAddr::from_bytes(&[10, 0, 0, 1]).unwrap(), ip);
    let ip = IpAddr::V6(Ipv6Addr { bits: 5 });
    assert_eq!(IpAddr::from_bytes(&Bytes::from_ip_addr(ip).0).unwrap(), ip);
    assert_eq!(
        IpAddr::from_bytes(&[1]).unwrap_err().details(),
        "Invalid ip address: 1"
    );
}

#[test]
fn plain_bytes_show_all_ascii() {
    assert_eq!(types::Bytes::from_text("a\nb").to_string(), "a\nb");
    assert_eq!(types::Bytes::from_slice(&[0xfe, b'x']).into_string(), "\\xFEx");
    let address = v4(0x0102_0304, 5);
    let bytes = types::Bytes::from_socket_addr(SocketAddr::V4(address));
    assert_eq!(bytes.to_socket_addr_v4(), address);
    assert_eq!(bytes.clone().into_inner(), vec![1, 2, 3, 4, 0, 5]);
    let mut long = vec![0u8; 18];
    long[15] = 9;
    long[17] = 7;
    let v6 = types::Bytes::from_slice(&long).to_socket_addr_v6();
    assert_eq!(v6.ip.bits, 9);
    assert_eq!(v6.port, 7);
}
