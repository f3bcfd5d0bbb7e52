use bittorrent::bencode::{dict, list_value, BencodedValue};
use bittorrent::bytes::{Bytes, PullBytes};
use bittorrent::keymap::KeyMap;

fn ingest_all(text: &str) -> (Result<BencodedValue, String>, Vec<u8>) {
    let bytes = text.as_bytes().to_vec();
    let mut rest = &bytes[..];
    let result = BencodedValue::ingest(&mut rest).map_err(|error| error.details());
    (result, rest.to_vec())
}

fn shown_value(text: &str) -> String {
    ingest_all(text).0.unwrap().display()
}

fn ingest_error(text: &str) -> String {
    ingest_all(text).0.unwrap_err()
}

#[test]
fn integers_are_read() {
    assert_eq!(shown_value("i42e"), "42");
    assert_eq!(shown_value("i-7e"), "-7");
    assert_eq!(shown_value("i+7e"), "7");
    assert_eq!(shown_value("i007e"), "7");
    assert_eq!(ingest_all("i42eabc").1, b"abc".to_vec());
}

#[test]
fn byte_strings_are_read() {
    assert_eq!(shown_value("4:spam"), "b\"spam\"");
    assert_eq!(shown_value("0:"), "b\"\"");
    assert_eq!(ingest_all("4:spamrest").1, b"rest".to_vec());
}

#[test]
fn lists_and_dictionaries_are_read() {
    assert_eq!(shown_value("le"), "[]");
    assert_eq!(shown_value("li1ei2e2:hie"), "[ 1, 2, b\"hi\" ]");
    assert_eq!(shown_value("de"), "{}");
    assert_eq!(shown_value("d1:bi2e1:ai1ee"), "{ b\"a\": 1, b\"b\": 2 }");
    assert_eq!(shown_value("d1:ali1ei2eee"), "{ b\"a\": [ 1, 2 ] }");
    assert_eq!(shown_value("d1:ai1e1:ai2ee"), "{ b\"a\": 2 }");
}

#[test]
fn broken_values_are_refused() {
    assert_eq!(ingest_error(""), "No data");
    assert_eq!(ingest_error("i42"), "Missing integer end token");
    assert_eq!(ingest_error("ixe"), "invalid digit found in string");
    assert_eq!(ingest_error("ie"), "cannot parse integer from empty string");
    assert_eq!(ingest_error("li1e"), "Missing list end token");
    assert_eq!(ingest_error("d1:ai1e"), "Missing dict end token");
    assert_eq!(ingest_error("di1ei2ee"), "Invalid dict key");
    assert_eq!(ingest_error("4spam"), "Missing string length end token");
    assert_eq!(ingest_error("5:spam"), "Insufficient characters remaining");
    assert_eq!(
        ingest_error("18446744073709551615:spam"),
        "Insufficient characters remaining"
    );
    assert_eq!(ingest_error("xyz"), "Invalid bencoded value");
    assert_eq!(
        ingest_error("i9223372036854775808e"),
        "number too large to fit in target type"
    );
}

#[test]
fn bytes_that_are_not_text_are_refused_as_numbers() {
    let bytes = [b'i', 0xff, b'e'];
    let mut rest = &bytes[..];
    let error = BencodedValue::ingest(&mut rest).unwrap_err();
    assert_eq!(
        error.details(),
        "invalid utf-8 sequence of 1 bytes from index 0"
    );
}

#[test]
fn a_refused_value_leaves_a_tail() {
    assert_eq!(ingest_all("i42").1, b"i42".to_vec());
    assert_eq!(ingest_all("li1exyz").1, b"xyz".to_vec());
    assert_eq!(ingest_all("ixeabc").1, b"abc".to_vec());
}

#[test]
fn values_are_written() {
    assert_eq!(BencodedValue::Int(-3).encode().unwrap(), b"i-3e".to_vec());
    assert_eq!(
        BencodedValue::Bytes(Bytes::from_text("spam")).encode().unwrap(),
        b"spam".to_vec()
    );
    assert_eq!(
        list_value(vec![BencodedValue::Int(1), BencodedValue::Int(2)])
            .encode()
            .unwrap(),
        b"li1ei2ee".to_vec()
    );
    let value = dict(vec![
        ("b", BencodedValue::Int(2)),
        ("none", BencodedValue::Null),
        ("a", BencodedValue::Int(1)),
    ]);
    assert_eq!(value.encode().unwrap(), b"dai1ebi2ee".to_vec());
    assert_eq!(BencodedValue::Null.encode().unwrap(), Vec::<u8>::new());
}

#[test]
fn what_is_written_reads_back() {
    let value = list_value(vec![
        BencodedValue::Int(i64::MIN),
        list_value(vec![BencodedValue::Int(0)]),
        dict(vec![]),
    ]);
    let mut bytes = value.clone().encode().unwrap();
    bytes.extend_from_slice(b"more");
    let mut rest = &bytes[..];
    let read = BencodedValue::ingest(&mut rest).unwrap();
    assert_eq!(read.display(), value.display());
    assert_eq!(rest, &b"more"[..]);
}

#[test]
fn later_entries_replace_earlier_ones() {
    let value = dict(vec![("a", BencodedValue::Int(1)), ("a", BencodedValue::Int(2))]);
    assert_eq!(value.display(), "{ b\"a\": 2 }");
}

#[test]
fn values_are_told_apart() {
    let value = ingest_all("d1:al1:xi5eee").0.unwrap();
    assert!(value.as_bytes().is_none());
    assert!(value.as_int().is_none());
    assert!(value.as_list().is_none());
    assert_eq!(value.as_dict().unwrap().len(), 1);
    let mut entries = value.into_dict().unwrap();
    let list = entries.pull(b"a").unwrap().into_list().unwrap();
    assert_eq!(entries.len(), 0);
    assert!(entries.pull(b"a").is_none());
    assert_eq!(list[0].as_bytes().unwrap().0, b"x".to_vec());
    assert_eq!(*list[1].as_int().unwrap(), 5);
    assert!(list[0].clone().into_int().is_none());
    assert_eq!(list[1].clone().into_int(), Some(5));
    assert_eq!(list[0].clone().into_bytes().unwrap().0, b"x".to_vec());
    assert!(BencodedValue::Null.into_dict().is_none());
    assert_eq!(BencodedValue::Null.display(), "null");
}

#[test]
fn maps_keep_their_keys_in_order() {
    let mut map: KeyMap<Bytes, u8> = KeyMap::new();
    map.insert(Bytes::from_text("b"), 2);
    map.insert(Bytes::from_text("a"), 1);
    map.insert(Bytes::from_text("ab"), 3);
    map.insert(Bytes::from_text("b"), 4);
    let keys: Vec<Vec<u8>> = (0..map.len())
        .map(|i| map.entry(i).0 .0.clone())
        .collect();
    assert_eq!(keys, vec![b"a".to_vec(), b"ab".to_vec(), b"b".to_vec()]);
    assert_eq!(map.get(b"b"), Some(&4));
    assert_eq!(map.get(b"c"), None);
    assert_eq!(map.remove(b"a"), Some(1));
    assert_eq!(map.len(), 2);
    assert_eq!(map.into_entries().len(), 2);
}

#[test]
fn byte_strings_are_shown_with_all_of_ascii() {
    let value = BencodedValue::Bytes(Bytes::from_slice(&[b'a', 0x00, 0x7f, 0x80, 0xfe]));
    assert_eq!(value.display(), "b\"a\u{0}\u{7f}\\x80\\xFE\"");
    let bytes = [b'd', b'1', b':', 0xab, b'i', b'1', b'e', b'e'];
    let mut rest = &bytes[..];
    let value = BencodedValue::ingest(&mut rest).unwrap();
    assert_eq!(value.display(), "{ b\"\\xAB\": 1 }");
}
