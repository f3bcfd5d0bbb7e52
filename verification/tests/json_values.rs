use bittorrent::bencode::encode::{bencode_value, encode_maybe_b64_string};
use bittorrent::decode::{list_bytes, maybe_b64_string, Decoder};
use bittorrent::json::{member_of, object, Number, Value};

fn decode_bytes(bytes: &[u8]) -> (Result<Value, String>, Vec<u8>) {
    let mut rest = bytes;
    let result = Decoder::new()
        .consume_bencoded_value(&mut rest)
        .map_err(|error| error.details());
    (result, rest.to_vec())
}

fn decode_error(bytes: &[u8]) -> String {
    decode_bytes(bytes).0.unwrap_err()
}

fn encode(value: Value) -> Vec<u8> {
    bencode_value(value).unwrap()
}

fn text(text: &str) -> Value {
    Value::Text(text.to_string())
}

#[test]
fn values_are_bencoded() {
    assert_eq!(encode(Value::Number(Number::from_i64(-5))), b"i-5e".to_vec());
    assert_eq!(
        encode(Value::Number(Number::from_u64(u64::MAX))),
        b"i18446744073709551615e".to_vec()
    );
    assert_eq!(encode(text("spam")), b"4:spam".to_vec());
    assert_eq!(
        encode(Value::Array(vec![text("a"), Value::Number(Number::from_u64(1))])),
        b"l1:ai1ee".to_vec()
    );
    let value = object(vec![
        ("b", text("x")),
        ("a", Value::Number(Number::from_u64(1))),
        ("c", Value::Null),
    ]);
    assert_eq!(encode(value), b"d1:ai1e1:b1:xe".to_vec());
}

#[test]
fn values_without_a_bencoding_are_refused() {
    assert_eq!(
        bencode_value(Value::Null).unwrap_err().details(),
        "Invalid value type for bencoding: null"
    );
    assert_eq!(
        bencode_value(Value::Bool(true)).unwrap_err().details(),
        "Invalid value type for bencoding: true"
    );
    assert_eq!(
        bencode_value(Value::Array(vec![Value::Bool(false)])).unwrap_err().details(),
        "Invalid value type for bencoding: false"
    );
    assert_eq!(
        bencode_value(Value::Array(vec![Value::Null])).unwrap_err().details(),
        "Invalid value type for bencoding: null"
    );
    let error = bencode_value(text("base64:*")).unwrap_err().details();
    assert!(error.starts_with("Error decoding base64 for string value: "));
}

#[test]
fn marked_strings_are_base64() {
    assert_eq!(encode_maybe_b64_string("plain").unwrap(), b"plain".to_vec());
    assert_eq!(encode_maybe_b64_string("base64:/w").unwrap(), vec![0xff]);
    assert!(encode_maybe_b64_string("base64:/w==").is_err());
    assert_eq!(maybe_b64_string(b"plain"), "plain");
    assert_eq!(maybe_b64_string(&[0xff]), "base64:/w");
    for bytes in [vec![], vec![0x80, 0x81], b"text".to_vec(), vec![0xff, 0x00, 0x10]] {
        assert_eq!(
            encode_maybe_b64_string(&maybe_b64_string(&bytes)).unwrap(),
            bytes
        );
    }
}

#[test]
fn bencoded_values_read_back() {
    let value = object(vec![
        ("list", Value::Array(vec![text("x"), Value::Number(Number::from_i64(i64::MIN))])),
        ("inner", object(vec![("k", text(""))])),
        ("n", Value::Number(Number::from_i64(0))),
    ]);
    let mut bytes = encode(value.clone());
    bytes.extend_from_slice(b"more");
    let (read, rest) = decode_bytes(&bytes);
    assert_eq!(encode(read.unwrap()), encode(value));
    assert_eq!(rest, b"more".to_vec());
}

#[test]
fn bytes_that_are_not_text_are_marked() {
    let (value, rest) = decode_bytes(&[b'2', b':', 0xff, 0xfe, b'x']);
    match value.unwrap() {
        Value::Text(text) => assert_eq!(text, "base64://4"),
        _ => panic!("not a text"),
    }
    assert_eq!(rest, b"x".to_vec());
}

#[test]
fn members_are_found() {
    let (value, _) = decode_bytes(b"d1:ai1e1:bl1:xee");
    match value.unwrap() {
        Value::Object(members) => {
            assert!(matches!(member_of(&members, "a"), Some(Value::Number(_))));
            assert!(matches!(member_of(&members, "b"), Some(Value::Array(_))));
            assert!(member_of(&members, "c").is_none());
        }
        _ => panic!("not an object"),
    }
}

#[test]
fn broken_encodings_are_refused() {
    assert_eq!(decode_error(b""), "Unhandled encoded value: []");
    assert_eq!(decode_error(b"x"), "Unhandled encoded value: [120]");
    assert_eq!(decode_error(b"xy"), "Unhandled encoded value: [120, 121]");
    assert_eq!(decode_error(b"i5"), "Error parsing encoded integer");
    assert_eq!(decode_error(b"i-e"), "Error parsing encoded integer");
    assert_eq!(
        decode_error(b"i9223372036854775808e"),
        "Error parsing encoded integer: number too large to fit in target type"
    );
    assert_eq!(decode_error(b"5"), "Error parsing encoded string length");
    assert_eq!(
        decode_error(b"99999999999999999999:"),
        "Error parsing encoded string length: number too large to fit in target type"
    );
    assert_eq!(
        decode_error(b"5:abc"),
        "Content length too long: requested 7 chars, stream only has 5 chars"
    );
    assert_eq!(
        decode_error(b"li1e"),
        "Error parsing encoded list: ending delimiter missing"
    );
    assert_eq!(
        decode_error(b"d1:ai1e"),
        "Error parsing encoded dictionary: ending delimiter missing"
    );
    assert_eq!(decode_error(b"di1ei2ee"), "Key element is not a string");
}

#[test]
fn digits_of_other_scripts_are_no_numbers() {
    let mut bytes = b"i".to_vec();
    bytes.extend_from_slice("\u{663}".as_bytes());
    bytes.push(b'e');
    assert_eq!(
        decode_error(&bytes),
        "Error parsing encoded integer: invalid digit found in string"
    );
    let mut bytes = b"1".to_vec();
    bytes.extend_from_slice("\u{663}:".as_bytes());
    assert_eq!(
        decode_error(&bytes),
        "Error parsing encoded string length: invalid digit found in string"
    );
}

#[test]
fn bytes_are_listed() {
    assert_eq!(list_bytes(&[]), "[]");
    assert_eq!(list_bytes(&[0, 255]), "[0, 255]");
}

#[test]
fn numbers_tell_their_range() {
    assert_eq!(Number::from_i64(-1).as_u64(), None);
    assert_eq!(Number::from_i64(7).as_u64(), Some(7));
    assert_eq!(Number::NegInt(7).as_u64(), Some(7));
    assert_eq!(Number::from_u64(u64::MAX).as_u64(), Some(u64::MAX));
}
