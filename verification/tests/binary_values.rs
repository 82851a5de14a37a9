use apexforge::apexlang::binary::{decode_value_binary, encode_value_binary, from_bin_bytes, BinValue};
use apexforge::apexlang::formats::{read_length, write_length};
use apexforge::forge::math::AFNSBigInt;

fn message(bytes: &[u8]) -> String {
    match from_bin_bytes(bytes) {
        Err(e) => e.message().to_string(),
        Ok(_) => panic!("expected an error"),
    }
}

#[test]
fn decodes_each_kind() {
    match from_bin_bytes(&[1, 0, 0, 0, 1, 0xFF]).unwrap() {
        BinValue::Int(n) => assert_eq!(n.to_string(), "-1"),
        _ => panic!("expected an integer"),
    }
    match from_bin_bytes(&[1, 0, 0, 0, 2, 0x01, 0x00]).unwrap() {
        BinValue::Int(n) => assert_eq!(n.to_string(), "256"),
        _ => panic!("expected an integer"),
    }
    assert!(matches!(from_bin_bytes(&[3, 1]).unwrap(), BinValue::Bool(true)));
    match from_bin_bytes(&[4, 0, 0, 0, 2, b'h', b'i']).unwrap() {
        BinValue::String(s) => assert_eq!(s, "hi"),
        _ => panic!("expected a string"),
    }
    match from_bin_bytes(&[5, 0, 0, 0, 2, 3, 0, 2, 0x3F, 0xF0, 0, 0, 0, 0, 0, 0]).unwrap() {
        BinValue::Tuple(items) => {
            assert_eq!(items.len(), 2);
            assert!(matches!(items[0], BinValue::Bool(false)));
            match items[1] {
                BinValue::Number(bits) => assert_eq!(f64::from_bits(bits), 1.0),
                _ => panic!("expected a number"),
            }
        },
        _ => panic!("expected a tuple"),
    }
}

#[test]
fn reports_each_error() {
    assert_eq!(message(&[]), "serde.from_bin reached the end of the buffer unexpectedly");
    assert_eq!(message(&[9]), "serde.from_bin encountered an unknown tag");
    assert_eq!(message(&[3, 1, 0]), "serde.from_bin encountered trailing bytes after decoding");
    assert_eq!(message(&[4, 0, 0, 0, 1, 0xFF]), "serde.from_bin string payload is not UTF-8");
    assert_eq!(message(&[1, 0, 0]), "serde.from_bin length header extends beyond the buffer");
    assert_eq!(message(&[1, 0, 0, 0, 3, 1]), "serde.from_bin int payload length exceeds buffer");
    assert_eq!(message(&[2, 1, 2]), "serde.from_bin number payload is incomplete");
    assert_eq!(message(&[3]), "serde.from_bin bool payload is missing");
    assert_eq!(message(&[5, 0, 0, 0, 2, 3, 1]), "serde.from_bin reached the end of the buffer unexpectedly");
}

#[test]
fn lengths_round_trip_and_cursor_moves() {
    let mut out = vec![7u8];
    write_length(300, &mut out).unwrap();
    assert_eq!(out, vec![7, 0, 0, 1, 44]);
    let mut cursor = 1;
    assert_eq!(read_length(&out, &mut cursor).unwrap(), 300);
    assert_eq!(cursor, 5);
    let mut c = 3;
    assert!(read_length(&out, &mut c).is_err());
    assert_eq!(c, 3);
    let bytes = [3u8, 1, 3, 0];
    let mut cur = 0;
    assert!(matches!(decode_value_binary(&bytes, &mut cur).unwrap(), BinValue::Bool(true)));
    assert_eq!(cur, 2);
    assert!(matches!(decode_value_binary(&bytes, &mut cur).unwrap(), BinValue::Bool(false)));
    assert_eq!(cur, 4);
}

#[test]
fn encoding_round_trips() {
    let mut out = Vec::new();
    encode_value_binary(&BinValue::Int(AFNSBigInt::new("-1").unwrap()), &mut out).unwrap();
    assert_eq!(out, vec![1, 0, 0, 0, 1, 0xFF]);
    let mut out = Vec::new();
    encode_value_binary(&BinValue::Int(AFNSBigInt::new("0").unwrap()), &mut out).unwrap();
    assert_eq!(out, vec![1, 0, 0, 0, 1, 0]);
    let value = BinValue::Tuple(vec![
        BinValue::Int(AFNSBigInt::new("300").unwrap()),
        BinValue::String("h\u{e9}".to_string()),
        BinValue::Bool(true),
        BinValue::Number(2.5f64.to_bits()),
        BinValue::Tuple(vec![]),
    ]);
    let mut out = Vec::new();
    encode_value_binary(&value, &mut out).unwrap();
    match from_bin_bytes(&out).unwrap() {
        BinValue::Tuple(items) => {
            assert_eq!(items.len(), 5);
            match &items[0] {
                BinValue::Int(n) => assert_eq!(n.to_string(), "300"),
                _ => panic!("expected an integer"),
            }
            match &items[1] {
                BinValue::String(s) => assert_eq!(s, "h\u{e9}"),
                _ => panic!("expected a string"),
            }
            assert!(matches!(items[2], BinValue::Bool(true)));
            match items[3] {
                BinValue::Number(bits) => assert_eq!(f64::from_bits(bits), 2.5),
                _ => panic!("expected a number"),
            }
            assert!(matches!(&items[4], BinValue::Tuple(inner) if inner.is_empty()));
        },
        _ => panic!("expected a tuple"),
    }
}

#[test]
fn failed_decoding_leaves_cursor_where_it_stopped() {
    let cases: [(&[u8], usize); 7] = [
        (&[], 0),
        (&[9], 1),
        (&[4, 0, 0, 0, 1, 0xFF], 6),
        (&[1, 0, 0, 0, 3, 1], 5),
        (&[1, 0, 0], 1),
        (&[2, 1, 2], 1),
        (&[5, 0, 0, 0, 2, 3, 1, 7], 8),
    ];
    for (bytes, stop) in cases {
        let mut cursor = 0;
        assert!(decode_value_binary(bytes, &mut cursor).is_err());
        assert_eq!(cursor, stop);
    }
}

#[test]
fn integers_are_written_in_their_fewest_bytes() {
    let cases: [(&str, Vec<u8>); 6] = [
        ("0", vec![1, 0, 0, 0, 1, 0]),
        ("127", vec![1, 0, 0, 0, 1, 0x7F]),
        ("128", vec![1, 0, 0, 0, 2, 0x00, 0x80]),
        ("-128", vec![1, 0, 0, 0, 1, 0x80]),
        ("-129", vec![1, 0, 0, 0, 2, 0xFF, 0x7F]),
        ("-256", vec![1, 0, 0, 0, 2, 0xFF, 0x00]),
    ];
    for (text, expected) in cases.iter() {
        let mut out = Vec::new();
        encode_value_binary(&BinValue::Int(AFNSBigInt::new(text).unwrap()), &mut out).unwrap();
        assert_eq!(&out, expected);
    }
}
