use naive_sql::decoder::{DecoderRow, EncoderRow};
use naive_sql::errors::MySQLError;
use naive_sql::types::{DataType, EncodeValue};

#[test]
fn decoder_test_decode_and_encode() {
    let mut encoder = EncoderRow::new();
    let col1 = b"abc";
    encoder.append_column(0, &EncodeValue::Int(2), &DataType::Int).unwrap();
    encoder.append_column(1, &EncodeValue::NULL, &DataType::Int).unwrap();
    encoder.append_column(2, &EncodeValue::NULL, &DataType::Int).unwrap();
    encoder.append_column(3, &EncodeValue::NULL, &DataType::Int).unwrap();
    encoder
        .append_column(4, &EncodeValue::Bytes(col1.to_vec()), &DataType::VarString)
        .unwrap();
    encoder.append_column(5, &EncodeValue::Int(3), &DataType::Int).unwrap();
    encoder.append_column(6, &EncodeValue::NULL, &DataType::Int).unwrap();
    let encode_data = encoder.to_bytes().unwrap();
    let row = DecoderRow::from_bytes(encode_data).unwrap();
    assert!(matches!(row.get_data(1), Some(None)));
    assert!(matches!(row.get_data(2), Some(None)));
    assert!(matches!(row.get_data(3), Some(None)));
    assert!(matches!(row.get_data(6), Some(None)));
    assert!(row.get_data(7).is_none());
    let col0 = row.get_data(0).unwrap().unwrap();
    let (col_val, _) = EncodeValue::read_from(col0, 0, &DataType::Int).unwrap();
    assert_eq!(col_val, EncodeValue::Int(2));
    let col4 = row.get_data(4).unwrap().unwrap();
    let (col_val, _) = EncodeValue::read_from(col4, 0, &DataType::VarString).unwrap();
    assert_eq!(col_val, EncodeValue::Bytes(col1.to_vec()));
}

#[test]
fn row_blob_corruption() {
    // Too short for the header.
    let e = DecoderRow::from_bytes(vec![128, 0, 1]).unwrap_err();
    assert!(matches!(e, MySQLError::Corruption));
    // Counts that overrun the blob.
    let e2 = DecoderRow::from_bytes(vec![128, 0, 9, 0, 0, 0]).unwrap_err();
    assert!(matches!(e2, MySQLError::Corruption));
}

#[test]
fn row_clear_resets() {
    let mut encoder = EncoderRow::new();
    encoder.append_column(1, &EncodeValue::Int(7), &DataType::Int).unwrap();
    encoder.clear();
    encoder
        .append_column(1, &EncodeValue::Bytes(b"z".to_vec()), &DataType::Char)
        .unwrap();
    let bytes = encoder.to_bytes().unwrap();
    let row = DecoderRow::from_bytes(bytes).unwrap();
    let payload = row.get_data(1).unwrap().unwrap();
    let (v, _) = EncodeValue::read_from(payload, 0, &DataType::Char).unwrap();
    assert_eq!(v, EncodeValue::Bytes(b"z".to_vec()));
}

#[test]
fn row_encoder_same_row_same_bytes() {
    // Cleared between rows, the encoder reproduces identical bytes for the
    // same logical row.
    let mut encoder = EncoderRow::new();
    encoder.append_column(1, &EncodeValue::Int(5), &DataType::Int).unwrap();
    encoder.append_column(2, &EncodeValue::NULL, &DataType::Int).unwrap();
    let first = encoder.to_bytes().unwrap();
    encoder.clear();
    encoder.append_column(1, &EncodeValue::Int(5), &DataType::Int).unwrap();
    encoder.append_column(2, &EncodeValue::NULL, &DataType::Int).unwrap();
    let second = encoder.to_bytes().unwrap();
    assert_eq!(first, second);
}
