use naive_sql::errors::MySQLError;
use naive_sql::sqlast::SqlValue;
use naive_sql::types::{DataType, EncodeValue};

fn comparable(v: &EncodeValue, t: &DataType) -> Vec<u8> {
    let mut out = Vec::new();
    v.encode_comparable(&mut out, t).unwrap();
    out
}

fn plain(v: &EncodeValue, t: &DataType) -> Vec<u8> {
    let mut out = Vec::new();
    v.encode(&mut out, t).unwrap();
    out
}

#[test]
fn types_test_decode_and_encode() {
    let value1 = "abc".to_string();
    let ecv1 =
        EncodeValue::from_parse_value(&SqlValue::SingleQuotedString(value1)).unwrap();
    let ecv2 = EncodeValue::Int(15);
    let mut data = vec![];
    ecv1.encode_comparable(&mut data, &DataType::VarString).unwrap();
    ecv2.encode_comparable(&mut data, &DataType::Int).unwrap();

    let (dcv1, pos) = EncodeValue::decode_comparable(&data, 0, &DataType::VarString).unwrap();
    let (dcv2, _) = EncodeValue::decode_comparable(&data, pos, &DataType::Int).unwrap();
    assert_eq!(ecv1, dcv1);
    assert_eq!(ecv2, dcv2);
}

#[test]
fn test_comparable_prefix() {
    let key1 = "".to_string();
    let key2 = "bcdefghi".to_string();
    let key3 = "abcd".to_string();
    let key4 = "efgh".to_string();
    let ecv1 = EncodeValue::from_parse_value(&SqlValue::SingleQuotedString(key1)).unwrap();
    let ecv2 = EncodeValue::from_parse_value(&SqlValue::SingleQuotedString(key2)).unwrap();
    let ecv3 = EncodeValue::from_parse_value(&SqlValue::SingleQuotedString(key3)).unwrap();
    let ecv4 = EncodeValue::from_parse_value(&SqlValue::SingleQuotedString(key4)).unwrap();

    let mut data1 = vec![];
    ecv1.encode_comparable(&mut data1, &DataType::VarString).unwrap();
    ecv2.encode_comparable(&mut data1, &DataType::VarString).unwrap();

    let mut data2 = vec![];
    ecv3.encode_comparable(&mut data2, &DataType::VarString).unwrap();
    ecv4.encode_comparable(&mut data2, &DataType::VarString).unwrap();

    assert_eq!(std::cmp::Ordering::Less, data1.cmp(&data2));
}

#[test]
fn comparable_bytes_order_concrete() {
    // Lexicographically ordered keys stay ordered after encoding.
    let keys: [&[u8]; 4] = [b"", b"abcd", b"bcdefghi", b"efgh"];
    let encoded: Vec<Vec<u8>> = keys
        .iter()
        .map(|k| comparable(&EncodeValue::Bytes(k.to_vec()), &DataType::VarString))
        .collect();
    for i in 0..encoded.len() - 1 {
        assert!(encoded[i] < encoded[i + 1]);
    }
}

#[test]
fn comparable_round_trips() {
    let cases: Vec<(EncodeValue, DataType)> = vec![
        (EncodeValue::Int(-1), DataType::SmallInt),
        (EncodeValue::Int(123456789), DataType::Int),
        (EncodeValue::Int(i64::MIN), DataType::BigInt),
        (EncodeValue::Double(3.5f64.to_bits()), DataType::Double),
        (EncodeValue::Bytes(b"12345678".to_vec()), DataType::Char),
        (EncodeValue::Bytes(b"123456789".to_vec()), DataType::Text),
        (EncodeValue::Bytes(Vec::new()), DataType::Varchar),
        (EncodeValue::Date(2021, 3, 4, 5, 6, 7, 8), DataType::Date),
        (EncodeValue::Time(true, 2, 3, 4, 5, 6), DataType::Time),
    ];
    for (v, t) in cases {
        let enc = comparable(&v, &t);
        let (back, used) = EncodeValue::decode_comparable(&enc, 0, &t).unwrap();
        assert_eq!(used, enc.len());
        match (&v, &back) {
            (EncodeValue::Double(a), EncodeValue::Double(b)) => assert_eq!(a, b),
            (EncodeValue::Date(a1, a2, a3, a4, a5, a6, a7), EncodeValue::Date(b1, b2, b3, b4, b5, b6, b7)) => {
                assert_eq!((a1, a2, a3, a4, a5, a6, a7), (b1, b2, b3, b4, b5, b6, b7));
            }
            (EncodeValue::Time(a1, a2, a3, a4, a5, a6), EncodeValue::Time(b1, b2, b3, b4, b5, b6)) => {
                assert_eq!((a1, a2, a3, a4, a5, a6), (b1, b2, b3, b4, b5, b6));
            }
            _ => assert_eq!(v, back),
        }
    }
}

#[test]
fn plain_round_trips() {
    let cases: Vec<(EncodeValue, DataType)> = vec![
        (EncodeValue::Int(-32768), DataType::SmallInt),
        (EncodeValue::Int(32767), DataType::SmallInt),
        (EncodeValue::Int(-2147483648), DataType::Int),
        (EncodeValue::Int(i64::MAX), DataType::BigInt),
        (EncodeValue::Double(0.25f64.to_bits()), DataType::Double),
        (EncodeValue::Bytes(b"abc".to_vec()), DataType::VarString),
        (EncodeValue::Bytes(Vec::new()), DataType::Char),
        (EncodeValue::Date(1999, 12, 31, 23, 59, 58, 0), DataType::Date),
        (EncodeValue::Date(1999, 12, 31, 23, 59, 58, 77), DataType::Date),
        (EncodeValue::Time(false, 1, 2, 3, 4, 5), DataType::Time),
    ];
    for (v, t) in cases {
        let enc = plain(&v, &t);
        let (back, used) = EncodeValue::read_from(&enc, 0, &t).unwrap();
        assert_eq!(used, enc.len());
        match (&v, &back) {
            (EncodeValue::Double(a), EncodeValue::Double(b)) => assert_eq!(a, b),
            (EncodeValue::Date(a1, a2, a3, a4, a5, a6, a7), EncodeValue::Date(b1, b2, b3, b4, b5, b6, b7)) => {
                assert_eq!((a1, a2, a3, a4, a5, a6, a7), (b1, b2, b3, b4, b5, b6, b7));
            }
            (EncodeValue::Time(a1, a2, a3, a4, a5, a6), EncodeValue::Time(b1, b2, b3, b4, b5, b6)) => {
                assert_eq!((a1, a2, a3, a4, a5, a6), (b1, b2, b3, b4, b5, b6));
            }
            _ => assert_eq!(v, back),
        }
    }
}

#[test]
fn plain_date_lengths() {
    // A date without microseconds is 8 bytes: length byte 7 plus fields.
    let d0 = plain(&EncodeValue::Date(2020, 1, 2, 3, 4, 5, 0), &DataType::Date);
    assert_eq!(d0.len(), 8);
    assert_eq!(d0[0], 7);
    // With microseconds it is 12 bytes: length byte 11 plus fields.
    let d1 = plain(&EncodeValue::Date(2020, 1, 2, 3, 4, 5, 6), &DataType::Date);
    assert_eq!(d1.len(), 12);
    assert_eq!(d1[0], 11);
}

#[test]
fn encode_type_mismatch() {
    let mut out = Vec::new();
    let e = EncodeValue::Int(1).encode_comparable(&mut out, &DataType::VarString).unwrap_err();
    assert!(matches!(e, MySQLError::InvalidType));
    assert!(out.is_empty());
    let e2 = EncodeValue::Int(1).encode(&mut out, &DataType::Date).unwrap_err();
    assert!(matches!(e2, MySQLError::InvalidType));
}

#[test]
fn decode_corruption() {
    // A fixed-width comparable value must close with the empty-group marker.
    let mut enc = comparable(&EncodeValue::Int(5), &DataType::Int);
    let last = enc.len() - 1;
    enc[last] = 0;
    let e = EncodeValue::decode_comparable(&enc, 0, &DataType::Int).unwrap_err();
    assert!(matches!(e, MySQLError::Corruption));
    // A truncated group encoding is refused too.
    let short = comparable(&EncodeValue::Bytes(b"abc".to_vec()), &DataType::Char);
    let e2 = EncodeValue::decode_comparable(&short[..5], 0, &DataType::Char).unwrap_err();
    assert!(matches!(e2, MySQLError::Corruption));
    // A group marker below the empty-group marker is corruption.
    let mut bad = comparable(&EncodeValue::Bytes(b"abc".to_vec()), &DataType::Char);
    let last2 = bad.len() - 1;
    bad[last2] = 200;
    let e3 = EncodeValue::decode_comparable(&bad, 0, &DataType::Char).unwrap_err();
    assert!(matches!(e3, MySQLError::Corruption));
}

#[test]
fn number_literals() {
    let v = EncodeValue::from_parse_value(&SqlValue::Number("+42".to_string())).unwrap();
    assert_eq!(v, EncodeValue::Int(42));
    let v2 = EncodeValue::from_parse_value(&SqlValue::Number(
        "-9223372036854775808".to_string(),
    ))
    .unwrap();
    assert_eq!(v2, EncodeValue::Int(i64::MIN));
    let e = EncodeValue::from_parse_value(&SqlValue::Number("abc".to_string())).unwrap_err();
    assert!(matches!(e, MySQLError::ParseError(_)));
    let e2 = EncodeValue::from_parse_value(&SqlValue::Number(
        "9223372036854775808".to_string(),
    ))
    .unwrap_err();
    assert!(matches!(e2, MySQLError::ParseError(_)));
    let v3 = EncodeValue::from_parse_value(&SqlValue::Boolean(true)).unwrap();
    assert_eq!(v3, EncodeValue::Int(1));
    let v4 = EncodeValue::from_parse_value(&SqlValue::Null).unwrap();
    assert!(v4.is_null());
    let e3 = EncodeValue::from_parse_value(&SqlValue::Other).unwrap_err();
    assert!(matches!(e3, MySQLError::UnsupportSQL));
}

#[test]
fn float_values_compare_unequal() {
    // Equality is defined for NULL, Int and Bytes only; identical floats,
    // dates and times compare unequal.
    let a = EncodeValue::Double(1.5f64.to_bits());
    let b = EncodeValue::Double(1.5f64.to_bits());
    assert!(a != b);
    let d = EncodeValue::Date(2020, 1, 1, 0, 0, 0, 0);
    let d2 = EncodeValue::Date(2020, 1, 1, 0, 0, 0, 0);
    assert!(d != d2);
    assert_eq!(EncodeValue::NULL, EncodeValue::NULL);
    assert_eq!(
        EncodeValue::Bytes(b"x".to_vec()),
        EncodeValue::Bytes(b"x".to_vec())
    );
    assert!(EncodeValue::Bytes(b"x".to_vec()) != EncodeValue::Bytes(b"y".to_vec()));
}
