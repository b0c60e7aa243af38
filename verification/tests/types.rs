use dozer::encoding::{bytes_eq, from_twos_complement, push_be, read_be};
use dozer::errors::TypeError;
use dozer::types::{twos_complement, Field, FieldDefinition, FieldType, Operation, Record, Schema, SchemaIdentifier};

#[test]
fn uint_encoding_is_tagged_big_endian() {
    assert_eq!(Field::UInt(1).encode(), vec![0u8, 0, 0, 0, 0, 0, 0, 0, 1]);
    assert_eq!(Field::UInt(0x0102030405060708).encode(), vec![0u8, 1, 2, 3, 4, 5, 6, 7, 8]);
}

#[test]
fn int_encoding_is_twos_complement() {
    assert_eq!(Field::Int(1).encode(), vec![1u8, 0, 0, 0, 0, 0, 0, 0, 1]);
    assert_eq!(Field::Int(-1).encode(), vec![1u8, 255, 255, 255, 255, 255, 255, 255, 255]);
    assert_eq!(Field::Int(i64::MIN).encode(), vec![1u8, 128, 0, 0, 0, 0, 0, 0, 0]);
    assert_eq!(Field::Int(-2).encode(), (-2i64).to_be_bytes().iter().fold(vec![1u8], |mut v, b| {
        v.push(*b);
        v
    }));
}

#[test]
fn float_encoding_is_the_bit_pattern() {
    let bits = 4.7809f64.to_bits();
    let mut expected = vec![2u8];
    expected.extend(4.7809f64.to_be_bytes());
    assert_eq!(Field::Float(bits).encode(), expected);
}

#[test]
fn other_encodings_carry_their_type_mark() {
    assert_eq!(Field::Boolean(true).encode(), vec![3u8, 1]);
    assert_eq!(Field::Boolean(false).encode(), vec![3u8, 0]);
    assert_eq!(Field::String("ab".to_string()).encode(), vec![4u8, b'a', b'b']);
    assert_eq!(Field::Text("é".to_string()).encode(), vec![5u8, 0xc3, 0xa9]);
    assert_eq!(Field::Binary(vec![9, 8]).encode(), vec![6u8, 9, 8]);
    let mut decimal = vec![7u8];
    decimal.extend(258u128.to_be_bytes());
    assert_eq!(Field::Decimal(258).encode(), decimal);
    assert_eq!(Field::Timestamp(-1).encode(), vec![8u8, 255, 255, 255, 255, 255, 255, 255, 255]);
    assert_eq!(Field::Date(738000).encode(), vec![9u8, 0, 0, 0, 0, 0, 0x0b, 0x42, 0xd0]);
    assert_eq!(Field::Bson(vec![1]).encode(), vec![10u8, 1]);
    assert_eq!(Field::Null.encode(), vec![11u8]);
}

#[test]
fn type_prefixes_are_distinct() {
    let fields = vec![
        Field::UInt(0),
        Field::Int(0),
        Field::Float(0),
        Field::Boolean(false),
        Field::String(String::new()),
        Field::Text(String::new()),
        Field::Binary(vec![]),
        Field::Decimal(0),
        Field::Timestamp(0),
        Field::Date(0),
        Field::Bson(vec![]),
        Field::Null,
    ];
    for (i, field) in fields.iter().enumerate() {
        assert_eq!(field.get_type_prefix() as usize, i);
    }
}

#[test]
fn encode_buf_appends() {
    let mut out = vec![42u8];
    Field::Boolean(true).encode_buf(&mut out);
    Field::Null.encode_buf(&mut out);
    assert_eq!(out, vec![42u8, 3, 1, 11]);
}

#[test]
fn big_endian_helpers() {
    let mut out = vec![];
    push_be(&mut out, 0x0102, 4);
    assert_eq!(out, vec![0u8, 0, 1, 2]);
    push_be(&mut out, 0x1ff, 1);
    assert_eq!(out, vec![0u8, 0, 1, 2, 0xff]);
    assert_eq!(read_be(&out, 0, 4), Some(0x0102));
    assert_eq!(read_be(&out, 3, 2), Some(0x02ff));
    assert_eq!(read_be(&out, 4, 2), None);
    assert_eq!(read_be(&out, 9, 0), None);
    assert_eq!(read_be(&out, 5, 0), Some(0));
    assert!(bytes_eq(&[1, 2], &[1, 2]));
    assert!(!bytes_eq(&[1, 2], &[1, 3]));
    assert!(!bytes_eq(&[1, 2], &[1, 2, 3]));
}

#[test]
fn twos_complement_round_trip() {
    for v in [0i64, 1, -1, 42, -42, i64::MAX, i64::MIN] {
        assert_eq!(twos_complement(v), v as u64);
        assert_eq!(from_twos_complement(v as u64), v);
    }
}

#[test]
fn record_key_concatenates_field_encodings() {
    let record = Record::new(
        None,
        vec![Field::Int(1), Field::String("a".to_string()), Field::Boolean(true)],
        None,
    );
    assert_eq!(record.get_key(&vec![2, 0]), vec![3u8, 1, 1, 0, 0, 0, 0, 0, 0, 0, 1]);
    assert_eq!(record.get_key(&vec![]), Vec::<u8>::new());
    assert_eq!(record.get_key(&vec![1, 1]), vec![4u8, b'a', 4, b'a']);
}

#[test]
fn record_values_are_read_and_set() {
    let mut record = Record::nulls(Some(SchemaIdentifier { id: 3, version: 1 }), 2, Some(7));
    assert_eq!(record.values, vec![Field::Null, Field::Null]);
    assert_eq!(record.schema_id, Some(SchemaIdentifier { id: 3, version: 1 }));
    assert_eq!(record.version, Some(7));
    record.set_value(1, Field::UInt(5));
    assert_eq!(record.get_value(1), Ok(&Field::UInt(5)));
    assert_eq!(record.get_value(0), Ok(&Field::Null));
    assert_eq!(record.get_value(2), Err(TypeError::InvalidFieldIndex(2)));
}

#[test]
fn clones_are_equal() {
    let record = Record::new(
        Some(SchemaIdentifier { id: 1, version: 2 }),
        vec![Field::Text("x".to_string()), Field::Bson(vec![1, 2]), Field::Decimal(3)],
        Some(1),
    );
    assert_eq!(record.clone(), record);
    let op = Operation::Update { old: record.clone(), new: record.clone() };
    assert_eq!(op.clone(), op);
}

#[test]
fn schema_equality_and_well_formedness() {
    let schema = Schema {
        identifier: Some(SchemaIdentifier { id: 1, version: 1 }),
        fields: vec![
            FieldDefinition::new("a".to_string(), FieldType::Int, false),
            FieldDefinition::new("b".to_string(), FieldType::String, true),
        ],
        primary_index: vec![0],
    };
    assert!(schema.is_well_formed());
    assert!(schema.same_as(&schema.clone()));
    let mut other = schema.clone();
    other.fields[1].nullable = false;
    assert!(!schema.same_as(&other));
    let mut renamed = schema.clone();
    renamed.fields[0].name = "c".to_string();
    assert!(!schema.same_as(&renamed));
    let mut retyped = schema.clone();
    retyped.fields[0].typ = FieldType::UInt;
    assert!(!schema.same_as(&retyped));
    let mut rekeyed = schema.clone();
    rekeyed.primary_index = vec![1];
    assert!(!schema.same_as(&rekeyed));
    let mut unnamed = schema.clone();
    unnamed.identifier = None;
    assert!(!schema.same_as(&unnamed));
    let mut broken = schema.clone();
    broken.primary_index = vec![0, 2];
    assert!(!broken.is_well_formed());
    let empty = Schema::empty();
    assert!(empty.fields.is_empty() && empty.primary_index.is_empty() && empty.identifier.is_none());
    assert!(empty.is_well_formed());
}

#[test]
fn rows_conform_to_their_schema() {
    let schema = Schema {
        identifier: None,
        fields: vec![
            FieldDefinition::new("id".to_string(), FieldType::Int, false),
            FieldDefinition::new("name".to_string(), FieldType::String, true),
        ],
        primary_index: vec![0],
    };
    let row = |values: Vec<Field>| Record::new(None, values, None);
    assert!(row(vec![Field::Int(1), Field::String("a".to_string())]).conforms_to(&schema));
    assert!(row(vec![Field::Int(1), Field::Null]).conforms_to(&schema));
    // a null in a column that takes none
    assert!(!row(vec![Field::Null, Field::Null]).conforms_to(&schema));
    // a value of another type
    assert!(!row(vec![Field::UInt(1), Field::Null]).conforms_to(&schema));
    assert!(!row(vec![Field::Int(1), Field::Text("a".to_string())]).conforms_to(&schema));
    // too few and too many values
    assert!(!row(vec![Field::Int(1)]).conforms_to(&schema));
    assert!(!row(vec![Field::Int(1), Field::Null, Field::Null]).conforms_to(&schema));
    assert!(row(vec![]).conforms_to(&Schema::empty()));
    assert_eq!(Field::Null.field_type(), None);
    assert_eq!(Field::Bson(vec![]).field_type(), Some(FieldType::Bson));
    assert_eq!(Field::Date(1).field_type(), Some(FieldType::Date));
}
