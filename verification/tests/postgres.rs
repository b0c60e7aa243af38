use chrono::NaiveDate;
use dozer::errors::PostgresSchemaError;
use dozer::postgres_helper::{
    convert_column_to_field, convert_text, dozer_type_of, postgres_type_to_dozer_type, postgres_type_to_field,
    Conversion, TableColumn,
};
use dozer::types::{Field, FieldDefinition, FieldType};
use postgres_types::{Kind, Type};
use rust_decimal::prelude::FromPrimitive;
use rust_decimal::Decimal;

fn decimal(value: Decimal) -> Field {
    Field::Decimal(u128::from_be_bytes(value.serialize()))
}

/// Reads the texts that the library hands back as text.
fn finish(conversion: Conversion) -> Field {
    match conversion {
        Conversion::Value(field) => field,
        Conversion::FloatText(text) => Field::Float(text.parse::<f64>().unwrap().to_bits()),
        Conversion::NumericText(text) => decimal(Decimal::from_f64(text.parse::<f64>().unwrap()).unwrap()),
    }
}

fn column(column_type: Type) -> TableColumn {
    TableColumn {
        name: "column".to_string(),
        type_id: column_type.oid() as i32,
        flags: 0,
        column_type: Some(column_type),
        idx: 0,
    }
}

fn check_conversion(text: &str, column_type: Type, expected: Field) {
    let value = postgres_type_to_field(Some(text.as_bytes()), &column(column_type));
    assert_eq!(finish(value.unwrap()), expected);
}

#[test]
fn it_converts_postgres_type_to_field() {
    check_conversion("12", Type::INT8, Field::Int(12));
    check_conversion("4.7809", Type::FLOAT8, Field::Float(4.7809f64.to_bits()));
    let value = String::from("Test text");
    check_conversion("Test text", Type::TEXT, Field::String(value));

    // UTF-8 bytes representation of json (https://www.charset.org/utf-8)
    let value: Vec<u8> = vec![98, 121, 116, 101, 97];
    check_conversion("bytea", Type::BYTEA, Field::Binary(value));

    let value = Decimal::from_f64(8.28).unwrap();
    check_conversion("8.28", Type::NUMERIC, decimal(value));

    let value = NaiveDate::from_ymd_opt(2022, 9, 16).unwrap().and_hms_opt(5, 56, 29).unwrap().and_utc();
    check_conversion("2022-09-16 05:56:29", Type::TIMESTAMP, Field::Timestamp(value.timestamp_millis()));

    let value = NaiveDate::from_ymd_opt(2022, 9, 16).unwrap().and_hms_micro_opt(3, 56, 30, 959787).unwrap().and_utc();
    check_conversion(
        "2022-09-16 10:56:30.959787+07",
        Type::TIMESTAMPTZ,
        Field::Timestamp(value.timestamp_millis()),
    );

    // UTF-8 bytes representation of json (https://www.charset.org/utf-8)
    let value = vec![123, 34, 97, 98, 99, 34, 58, 34, 102, 111, 111, 34, 125];
    check_conversion("{\"abc\":\"foo\"}", Type::JSONB, Field::Bson(value));

    check_conversion("t", Type::BOOL, Field::Boolean(true));
    check_conversion("f", Type::BOOL, Field::Boolean(false));
}

#[test]
fn test_none_value() {
    let value = postgres_type_to_field(None, &column(Type::VARCHAR));
    assert_eq!(finish(value.unwrap()), Field::Null);
}

#[test]
fn texts_that_are_handed_back() {
    let c = |text: &str, t: Type| postgres_type_to_field(Some(text.as_bytes()), &column(t)).unwrap();
    assert_eq!(c("4.7809", Type::FLOAT4), Conversion::FloatText("4.7809".to_string()));
    assert_eq!(c("8.28", Type::NUMERIC), Conversion::NumericText("8.28".to_string()));
    assert_eq!(c("1970-01-01 00:00:01", Type::TIMESTAMP), Conversion::Value(Field::Timestamp(1000)));
    assert_eq!(c("1970-01-01 01:00:00.250+01", Type::TIMESTAMPTZ), Conversion::Value(Field::Timestamp(250)));
    assert_eq!(c("1969-12-31 23:59:59", Type::TIMESTAMP), Conversion::Value(Field::Timestamp(-1000)));
    assert_eq!(c("2022-09-16", Type::DATE), Conversion::Value(Field::Date(738414)));
    assert_eq!(c("0001-01-01", Type::DATE), Conversion::Value(Field::Date(1)));
    assert_eq!(c("-5", Type::INT2), Conversion::Value(Field::Int(-5)));
    assert_eq!(c("5", Type::INT4), Conversion::Value(Field::Int(5)));
    assert_eq!(c("v", Type::VARCHAR), Conversion::Value(Field::String("v".to_string())));
    assert_eq!(c("c", Type::CHAR), Conversion::Value(Field::String("c".to_string())));
    assert_eq!(c("{}", Type::JSON), Conversion::Value(Field::Bson(vec![b'{', b'}'])));
    assert_eq!(c("true", Type::BOOL), Conversion::Value(Field::Boolean(true)));
}

#[test]
fn values_that_cannot_be_taken_over() {
    let without_type = TableColumn { name: "column".to_string(), type_id: 0, flags: 0, column_type: None, idx: 0 };
    assert_eq!(postgres_type_to_field(Some(b"1"), &without_type), Err(PostgresSchemaError::ColumnTypeNotFound));
    assert_eq!(
        postgres_type_to_field(Some(b"1"), &column(Type::POINT)),
        Err(PostgresSchemaError::ColumnTypeNotSupported("point".to_string()))
    );
    assert_eq!(
        postgres_type_to_field(Some(b"twelve"), &column(Type::INT8)),
        Err(PostgresSchemaError::ValueConversionError("int8".to_string()))
    );
    assert_eq!(
        postgres_type_to_field(Some(&[0xff]), &column(Type::TEXT)),
        Err(PostgresSchemaError::ValueConversionError("text".to_string()))
    );
    assert_eq!(
        postgres_type_to_field(Some(b""), &column(Type::BOOL)),
        Err(PostgresSchemaError::ValueConversionError("bool".to_string()))
    );
    assert_eq!(
        postgres_type_to_field(Some(b"2022-09-16"), &column(Type::TIMESTAMP)),
        Err(PostgresSchemaError::ValueConversionError("timestamp".to_string()))
    );
    assert_eq!(
        postgres_type_to_field(Some(b"2022-09-16 05:56:29"), &column(Type::TIMESTAMPTZ)),
        Err(PostgresSchemaError::ValueConversionError("timestamptz".to_string()))
    );
    assert_eq!(
        postgres_type_to_field(Some(b"2022-13-41"), &column(Type::DATE)),
        Err(PostgresSchemaError::ValueConversionError("date".to_string()))
    );
    assert_eq!(
        convert_text(b"1", 600, "point".to_string()),
        Err(PostgresSchemaError::ColumnTypeNotSupported("point".to_string()))
    );
    assert_eq!(convert_text(b"1", 20, "int8".to_string()), Ok(Conversion::Value(Field::Int(1))));
}

#[test]
fn types_of_columns() {
    let cases = [
        (Type::BOOL, FieldType::Boolean),
        (Type::INT2, FieldType::Int),
        (Type::INT4, FieldType::Int),
        (Type::INT8, FieldType::Int),
        (Type::CHAR, FieldType::String),
        (Type::TEXT, FieldType::String),
        (Type::VARCHAR, FieldType::String),
        (Type::FLOAT4, FieldType::Float),
        (Type::FLOAT8, FieldType::Float),
        (Type::BIT, FieldType::Binary),
        (Type::TIMESTAMP, FieldType::Timestamp),
        (Type::TIMESTAMPTZ, FieldType::Timestamp),
        (Type::NUMERIC, FieldType::Decimal),
        (Type::JSONB, FieldType::Bson),
        (Type::DATE, FieldType::Date),
    ];
    for (pg, expected) in cases {
        assert_eq!(postgres_type_to_dozer_type(pg.clone()), Ok(expected));
        assert_eq!(dozer_type_of(pg.oid(), pg.name().to_string()), Ok(expected));
    }
    for unsupported in [Type::BYTEA, Type::JSON, Type::BPCHAR, Type::UUID, Type::INT4_ARRAY] {
        assert_eq!(
            postgres_type_to_dozer_type(unsupported.clone()),
            Err(PostgresSchemaError::ColumnTypeNotSupported(unsupported.name().to_string()))
        );
    }
    let custom = Type::new("mood".to_string(), 70000, Kind::Simple, "public".to_string());
    assert_eq!(
        postgres_type_to_dozer_type(custom),
        Err(PostgresSchemaError::ColumnTypeNotSupported("mood".to_string()))
    );
}

#[test]
fn columns_are_taken_as_nullable() {
    assert_eq!(
        convert_column_to_field("id".to_string(), Type::INT4),
        Ok(FieldDefinition { name: "id".to_string(), typ: FieldType::Int, nullable: true })
    );
    assert_eq!(
        convert_column_to_field("shape".to_string(), Type::POLYGON),
        Err(PostgresSchemaError::ColumnTypeNotSupported("polygon".to_string()))
    );
}
