use otlp2records::json::{parse_json, Json};
use otlp2records::value::hex_encode;
use otlp2records::wire::{read_fixed, read_key, read_varint};

#[test]
fn varints_decode_little_endian_groups() {
    assert_eq!(read_varint(&[0x96, 0x01], 0, 2), Some((150, 2)));
    assert_eq!(read_varint(&[0x00], 0, 1), Some((0, 1)));
    let max = [0xff, 0xff, 0xff, 0xff, 0xff, 0xff, 0xff, 0xff, 0xff, 0x01];
    assert_eq!(read_varint(&max, 0, 10), Some((u64::MAX, 10)));
    let over = [0xff, 0xff, 0xff, 0xff, 0xff, 0xff, 0xff, 0xff, 0xff, 0x02];
    assert_eq!(read_varint(&over, 0, 10), None);
    assert_eq!(read_varint(&[0x80, 0x80], 0, 2), None);
    assert_eq!(read_varint(&[0x96, 0x01], 0, 1), None);
}

#[test]
fn fixed_width_values_are_little_endian() {
    let b = 0x0102030405060708u64.to_le_bytes();
    assert_eq!(read_fixed(&b, 0, 8, 8), Some((0x0102030405060708, 8)));
    assert_eq!(read_fixed(&b, 0, 8, 4), Some((0x05060708, 4)));
    assert_eq!(read_fixed(&b, 2, 8, 8), None);
}

#[test]
fn keys_split_field_and_wire_type() {
    assert_eq!(read_key(&[0x0a], 0, 1), Some((1, 2, 1)));
    assert_eq!(read_key(&[0x00], 0, 1), None);
    assert_eq!(read_key(&[0x0e], 0, 1), None);
}

#[test]
fn ids_render_as_lower_case_hex() {
    assert_eq!(hex_encode(&[0x00, 0xab, 0x7f]), b"00ab7f".to_vec());
    assert!(hex_encode(&[]).is_empty());
}

#[test]
fn json_reader_handles_escapes_and_repeated_keys() {
    let j = parse_json(r#" {"a": "xé😀\n", "a": [1, -2.5e3, true, null], "b": {}} "#.as_bytes()).unwrap();
    match j {
        Json::Object(ms) => {
            assert_eq!(ms.len(), 2);
            assert_eq!(ms[0].0, "a");
            match &ms[0].1 {
                Json::Array(items) => {
                    assert!(matches!(&items[0], Json::Number(t) if t == b"1"));
                    assert!(matches!(&items[1], Json::Number(t) if t == b"-2.5e3"));
                    assert!(matches!(&items[2], Json::Bool(true)));
                    assert!(matches!(&items[3], Json::Null));
                }
                other => panic!("{:?}", other),
            }
        }
        other => panic!("{:?}", other),
    }
    let s = parse_json(r#""xé😀\n\u00e9\ud83d\ude00""#.as_bytes()).unwrap();
    assert!(matches!(s, Json::Str(t) if t == "xé😀\né😀".as_bytes()));
    assert!(parse_json(b"{\"a\":1} x").is_err());
    assert!(parse_json(b"01").is_err());
    assert!(parse_json(br#""\ud83d""#).is_err());
    assert!(parse_json(b"").is_err());
}
