use dozer::codec::{deserialize_field, deserialize_record, serialize_field, serialize_record};
use dozer::types::{Field, Record, SchemaIdentifier};

fn every_kind() -> Vec<Field> {
    vec![
        Field::UInt(u64::MAX),
        Field::Int(-5),
        Field::Float(4.7809f64.to_bits()),
        Field::Boolean(true),
        Field::Boolean(false),
        Field::String("Test text".to_string()),
        Field::Text("längere Zeile ✓".to_string()),
        Field::Binary(vec![98, 121, 116, 101, 97]),
        Field::Decimal(u128::MAX - 3),
        Field::Timestamp(1663307789000),
        Field::Date(-12),
        Field::Bson(vec![123, 34, 97, 98, 99, 34, 58, 34, 102, 111, 111, 34, 125]),
        Field::Null,
    ]
}

#[test]
fn record_round_trip() {
    let record = Record::new(Some(SchemaIdentifier { id: 77, version: 3 }), every_kind(), Some(9));
    let bytes = serialize_record(&record);
    assert_eq!(deserialize_record(&bytes), Some(record));
}

#[test]
fn record_round_trip_without_identifier_and_version() {
    let record = Record::new(None, vec![], None);
    let bytes = serialize_record(&record);
    assert_eq!(bytes, vec![0u8, 0, 0, 0, 0, 0, 0, 0, 0, 0]);
    assert_eq!(deserialize_record(&bytes), Some(record));
}

#[test]
fn stored_form_is_exact() {
    let record = Record::new(
        Some(SchemaIdentifier { id: 1, version: 2 }),
        vec![Field::String("a".to_string()), Field::Null],
        Some(3),
    );
    assert_eq!(
        serialize_record(&record),
        vec![
            1u8, 0, 0, 0, 1, 0, 2, // schema identifier
            1, 0, 0, 0, 3, // version
            0, 0, 0, 0, 0, 0, 0, 2, // two values
            4, 0, 0, 0, 0, 0, 0, 0, 1, b'a', // text with its length
            11, // null
        ]
    );
}

#[test]
fn field_round_trip_at_a_position() {
    for field in every_kind() {
        let mut bytes = vec![0xaa, 0xbb];
        serialize_field(&field, &mut bytes);
        let end = bytes.len();
        bytes.push(0xcc);
        assert_eq!(deserialize_field(&bytes, 2), Some((field, end)));
    }
}

#[test]
fn malformed_bytes_are_not_a_record() {
    let record = Record::new(None, vec![Field::Int(1), Field::String("abc".to_string())], None);
    let bytes = serialize_record(&record);
    // every proper prefix is cut off somewhere
    for cut in 0..bytes.len() {
        assert_eq!(deserialize_record(&bytes[..cut]), None, "prefix of {} bytes", cut);
    }
    // a byte too many
    let mut longer = bytes.clone();
    longer.push(0);
    assert_eq!(deserialize_record(&longer), None);
    // an unknown type mark
    let mut unknown = bytes.clone();
    unknown[10] = 12;
    assert_eq!(deserialize_record(&unknown), None);
    // a presence byte that is neither 0 nor 1
    let mut presence = bytes.clone();
    presence[0] = 2;
    assert_eq!(deserialize_record(&presence), None);
}

#[test]
fn invalid_text_and_flags_are_refused() {
    // a text of one byte that is no UTF-8
    let text = vec![4u8, 0, 0, 0, 0, 0, 0, 0, 1, 0xff];
    assert_eq!(deserialize_field(&text, 0), None);
    // a boolean that is neither 0 nor 1
    assert_eq!(deserialize_field(&[3u8, 2], 0), None);
    // a date outside 32 bits
    let date = vec![9u8, 0, 0, 0, 1, 0, 0, 0, 0];
    assert_eq!(deserialize_field(&date, 0), None);
    // a length that runs past the end
    let long = vec![6u8, 0, 0, 0, 0, 0, 0, 0, 5, 1, 2];
    assert_eq!(deserialize_field(&long, 0), None);
    // a position behind the end
    assert_eq!(deserialize_field(&[11u8], 1), None);
    assert_eq!(deserialize_field(&[11u8], 0), Some((Field::Null, 1)));
}
