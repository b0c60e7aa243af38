//! Takes the types and the text values of Postgres columns over into the
//! types and values of rows.

use crate::codec::string_from_utf8;
use crate::decimal::{i64_of, parse_i64};
use crate::errors::PostgresSchemaError;
use crate::storage::copy_slice;
use crate::types::{Field, FieldDefinition, FieldType, FieldValue};
use chrono::{DateTime, Datelike, NaiveDate, NaiveDateTime};
use postgres_types::Type;
use vstd::prelude::*;
use vstd::utf8::{decode_utf8, valid_utf8};

verus! {

/// A type of Postgres, as the crate `postgres-types` holds it.
#[verifier::external_type_specification]
#[verifier::external_body]
pub struct ExPostgresType(Type);

/// `Type::oid` of postgres-types: the object identifier of the type.
/// Nothing is claimed of it.
#[verifier::external_body]
fn oid_of_type(column_type: &Type) -> (oid: u32) {
    column_type.oid()
}

/// `Type::name` of postgres-types: the name of the type. Nothing is claimed
/// of it.
#[verifier::external_body]
fn name_of_type(column_type: &Type) -> (name: String) {
    column_type.name().to_string()
}

/// What `NaiveDateTime::parse_from_str` of chrono reads from `text` in the
/// format `%Y-%m-%d %H:%M:%S`, taken as a time in UTC: the milliseconds
/// since the Unix epoch, or `None` where the text is not in the format.
pub uninterp spec fn timestamp_millis_of(text: Seq<char>) -> Option<i64>;

/// What `DateTime::parse_from_str` of chrono reads from `text` in the format
/// `%Y-%m-%d %H:%M:%S%.f%#z`: the milliseconds since the Unix epoch, or
/// `None` where the text is not in the format.
pub uninterp spec fn timestamp_tz_millis_of(text: Seq<char>) -> Option<i64>;

/// What `NaiveDate::parse_from_str` of chrono reads from `text` in the
/// format `%Y-%m-%d`: the days since the start of the common era, or `None`
/// where the text is not in the format.
pub uninterp spec fn date_days_of(text: Seq<char>) -> Option<i32>;

/// `NaiveDateTime::parse_from_str` of chrono, with the format
/// `%Y-%m-%d %H:%M:%S`; the time is taken as UTC and handed back in
/// milliseconds since the Unix epoch. The result is named, not described.
#[verifier::external_body]
fn parse_timestamp(text: &str) -> (millis: Option<i64>)
    ensures
        millis == timestamp_millis_of(text@),
{
    match NaiveDateTime::parse_from_str(text, "%Y-%m-%d %H:%M:%S") {
        Ok(date) => Some(date.and_utc().timestamp_millis()),
        Err(_) => None,
    }
}

/// `DateTime::parse_from_str` of chrono, with the format
/// `%Y-%m-%d %H:%M:%S%.f%#z`; the time is handed back in milliseconds since
/// the Unix epoch. The result is named, not described.
#[verifier::external_body]
fn parse_timestamp_tz(text: &str) -> (millis: Option<i64>)
    ensures
        millis == timestamp_tz_millis_of(text@),
{
    match DateTime::parse_from_str(text, "%Y-%m-%d %H:%M:%S%.f%#z") {
        Ok(date) => Some(date.timestamp_millis()),
        Err(_) => None,
    }
}

/// `NaiveDate::parse_from_str` of chrono, with the format `%Y-%m-%d`; the
/// date is handed back in days since the start of the common era. The result
/// is named, not described.
#[verifier::external_body]
fn parse_date(text: &str) -> (days: Option<i32>)
    ensures
        days == date_days_of(text@),
{
    match NaiveDate::parse_from_str(text, "%Y-%m-%d") {
        Ok(date) => Some(date.num_days_from_ce()),
        Err(_) => None,
    }
}

/// The type of the values of a column whose Postgres type has the object
/// identifier `oid`, for the types that can be taken over.
pub open spec fn dozer_type_of_oid(oid: u32) -> Option<FieldType> {
    if oid == 16 {
        Some(FieldType::Boolean)
    } else if oid == 21 || oid == 23 || oid == 20 {
        Some(FieldType::Int)
    } else if oid == 18 || oid == 25 || oid == 1043 {
        Some(FieldType::String)
    } else if oid == 700 || oid == 701 {
        Some(FieldType::Float)
    } else if oid == 1560 {
        Some(FieldType::Binary)
    } else if oid == 1114 || oid == 1184 {
        Some(FieldType::Timestamp)
    } else if oid == 1700 {
        Some(FieldType::Decimal)
    } else if oid == 3802 {
        Some(FieldType::Bson)
    } else if oid == 1082 {
        Some(FieldType::Date)
    } else {
        None
    }
}

/// The type of the values of a column whose Postgres type has the object
/// identifier `oid` and the name `name`: `bool` (16) is a boolean; `int2`
/// (21), `int4` (23) and `int8` (20) are integers; `char` (18), `text` (25)
/// and `varchar` (1043) are strings; `float4` (700) and `float8` (701) are
/// floats; `bit` (1560) is binary; `timestamp` (1114) and `timestamptz`
/// (1184) are timestamps; `numeric` (1700) is a decimal; `jsonb` (3802) is
/// BSON; `date` (1082) is a date. Any other type is not supported.
pub fn dozer_type_of(oid: u32, name: String) -> (typ: Result<FieldType, PostgresSchemaError>)
    ensures
        match dozer_type_of_oid(oid) {
            Some(t) => typ == Ok::<FieldType, PostgresSchemaError>(t),
            None => typ == Err::<FieldType, PostgresSchemaError>(PostgresSchemaError::ColumnTypeNotSupported(name)),
        },
{
    if oid == 16 {
        Ok(FieldType::Boolean)
    } else if oid == 21 || oid == 23 || oid == 20 {
        Ok(FieldType::Int)
    } else if oid == 18 || oid == 25 || oid == 1043 {
        Ok(FieldType::String)
    } else if oid == 700 || oid == 701 {
        Ok(FieldType::Float)
    } else if oid == 1560 {
        Ok(FieldType::Binary)
    } else if oid == 1114 || oid == 1184 {
        Ok(FieldType::Timestamp)
    } else if oid == 1700 {
        Ok(FieldType::Decimal)
    } else if oid == 3802 {
        Ok(FieldType::Bson)
    } else if oid == 1082 {
        Ok(FieldType::Date)
    } else {
        Err(PostgresSchemaError::ColumnTypeNotSupported(name))
    }
}

/// The type of the values of a column of the Postgres type `column_type`:
/// what `dozer_type_of` gives for the identifier and the name of the type.
pub fn postgres_type_to_dozer_type(column_type: Type) -> (typ: Result<FieldType, PostgresSchemaError>)
    ensures
        typ matches Ok(t) ==> exists|oid: u32| dozer_type_of_oid(oid) == Some(t),
        typ matches Err(e) ==> e is ColumnTypeNotSupported,
{
    let oid = oid_of_type(&column_type);
    let name = name_of_type(&column_type);
    dozer_type_of(oid, name)
}

/// The definition of the column `name` of the Postgres type `column_type`.
/// Every column is taken as nullable.
pub fn convert_column_to_field(name: String, column_type: Type) -> (definition: Result<
    FieldDefinition,
    PostgresSchemaError,
>)
    ensures
        definition matches Ok(d) ==> d@.name == name@ && d@.nullable && exists|oid: u32|
            dozer_type_of_oid(oid) == Some(d@.typ),
        definition matches Err(e) ==> e is ColumnTypeNotSupported,
{
    match postgres_type_to_dozer_type(column_type) {
        Ok(typ) => Ok(FieldDefinition { name, typ, nullable: true }),
        Err(e) => Err(e),
    }
}

/// A column of a table, as the replication stream describes it.
#[derive(Debug)]
pub struct TableColumn {
    pub name: String,
    pub type_id: i32,
    pub flags: i8,
    pub column_type: Option<Type>,
    pub idx: usize,
}

/// What a text value of a column is taken over as.
#[derive(Debug, PartialEq, Eq)]
pub enum Conversion {
    /// The value.
    Value(Field),
    /// The text of a float, still to be read.
    FloatText(String),
    /// The text of a decimal, still to be read.
    NumericText(String),
}

/// What a `Conversion` holds, as mathematical values.
pub enum ConversionView {
    Value(FieldValue),
    FloatText(Seq<char>),
    NumericText(Seq<char>),
}

impl View for Conversion {
    type V = ConversionView;

    open spec fn view(&self) -> ConversionView {
        match self {
            Conversion::Value(field) => ConversionView::Value(field@),
            Conversion::FloatText(words) => ConversionView::FloatText(words@),
            Conversion::NumericText(words) => ConversionView::NumericText(words@),
        }
    }
}

/// How the conversion of a text value ends.
pub enum Converted {
    /// In this.
    To(ConversionView),
    /// The type of the column is not supported.
    NotSupported,
    /// The text does not spell a value of the type.
    Invalid,
}

/// The text that the bytes spell, if they are UTF-8.
pub open spec fn text_of(value: Seq<u8>) -> Option<Seq<char>> {
    if valid_utf8(value) {
        Some(decode_utf8(value))
    } else {
        None
    }
}

/// What the text value `value` of a column of the type with the object
/// identifier `oid` is taken over as.
pub open spec fn converted(value: Seq<u8>, oid: u32) -> Converted {
    if oid == 21 || oid == 23 || oid == 20 {
        match i64_of(value) {
            Some(number) => Converted::To(ConversionView::Value(FieldValue::Int(number))),
            None => Converted::Invalid,
        }
    } else if oid == 700 || oid == 701 {
        match text_of(value) {
            Some(words) => Converted::To(ConversionView::FloatText(words)),
            None => Converted::Invalid,
        }
    } else if oid == 25 || oid == 1043 || oid == 18 {
        match text_of(value) {
            Some(words) => Converted::To(ConversionView::Value(FieldValue::String(words))),
            None => Converted::Invalid,
        }
    } else if oid == 17 {
        Converted::To(ConversionView::Value(FieldValue::Binary(value)))
    } else if oid == 1700 {
        match text_of(value) {
            Some(words) => Converted::To(ConversionView::NumericText(words)),
            None => Converted::Invalid,
        }
    } else if oid == 1114 {
        match text_of(value) {
            Some(words) => match timestamp_millis_of(words) {
                Some(millis) => Converted::To(ConversionView::Value(FieldValue::Timestamp(millis))),
                None => Converted::Invalid,
            },
            None => Converted::Invalid,
        }
    } else if oid == 1184 {
        match text_of(value) {
            Some(words) => match timestamp_tz_millis_of(words) {
                Some(millis) => Converted::To(ConversionView::Value(FieldValue::Timestamp(millis))),
                None => Converted::Invalid,
            },
            None => Converted::Invalid,
        }
    } else if oid == 1082 {
        match text_of(value) {
            Some(words) => match date_days_of(words) {
                Some(days) => Converted::To(ConversionView::Value(FieldValue::Date(days))),
                None => Converted::Invalid,
            },
            None => Converted::Invalid,
        }
    } else if oid == 3802 || oid == 114 {
        Converted::To(ConversionView::Value(FieldValue::Bson(value)))
    } else if oid == 16 {
        if value.len() > 0 {
            Converted::To(ConversionView::Value(FieldValue::Boolean(value[0] == 0x74)))
        } else {
            Converted::Invalid
        }
    } else {
        Converted::NotSupported
    }
}

/// `result` is the answer for a conversion that ends in `end`, for a type of the name `name`.
pub open spec fn answers(end: Converted, name: Seq<char>, result: Result<Conversion, PostgresSchemaError>) -> bool {
    match end {
        Converted::To(conversion) => result matches Ok(found) && found@ == conversion,
        Converted::NotSupported => result matches Err(PostgresSchemaError::ColumnTypeNotSupported(words)) && words@
            == name,
        Converted::Invalid => result matches Err(PostgresSchemaError::ValueConversionError(words)) && words@ == name,
    }
}

fn words_of(value: &[u8]) -> (words: Option<String>)
    ensures
        match text_of(value@) {
            Some(text) => words matches Some(w) && w@ == text,
            None => words is None,
        },
{
    string_from_utf8(copy_slice(value))
}

/// Takes over the text value `value` of a column whose type has the object
/// identifier `oid` and the name `name`. Integers, timestamps and dates are
/// read; text, byte strings and JSON are taken as they are; a boolean is true
/// where the text starts with `t`. The text of a float or of a decimal is
/// handed back as text of its kind. A text that does not spell a value of
/// the type is a `ValueConversionError` with the name of the type.
pub fn convert_text(value: &[u8], oid: u32, name: String) -> (result: Result<Conversion, PostgresSchemaError>)
    ensures
        answers(converted(value@, oid), name@, result),
{
    if oid == 21 || oid == 23 || oid == 20 {
        match parse_i64(value) {
            Some(number) => Ok(Conversion::Value(Field::Int(number))),
            None => Err(PostgresSchemaError::ValueConversionError(name)),
        }
    } else if oid == 17 {
        Ok(Conversion::Value(Field::Binary(copy_slice(value))))
    } else if oid == 3802 || oid == 114 {
        Ok(Conversion::Value(Field::Bson(copy_slice(value))))
    } else if oid == 16 {
        if value.len() > 0 {
            Ok(Conversion::Value(Field::Boolean(value[0] == 0x74)))
        } else {
            Err(PostgresSchemaError::ValueConversionError(name))
        }
    } else if oid == 700 || oid == 701 || oid == 25 || oid == 1043 || oid == 18 || oid == 1700 || oid == 1114
        || oid == 1184 || oid == 1082 {
        let words = match words_of(value) {
            Some(words) => words,
            None => {
                return Err(PostgresSchemaError::ValueConversionError(name));
            },
        };
        if oid == 700 || oid == 701 {
            Ok(Conversion::FloatText(words))
        } else if oid == 1700 {
            Ok(Conversion::NumericText(words))
        } else if oid == 1114 {
            match parse_timestamp(words.as_str()) {
                Some(millis) => Ok(Conversion::Value(Field::Timestamp(millis))),
                None => Err(PostgresSchemaError::ValueConversionError(name)),
            }
        } else if oid == 1184 {
            match parse_timestamp_tz(words.as_str()) {
                Some(millis) => Ok(Conversion::Value(Field::Timestamp(millis))),
                None => Err(PostgresSchemaError::ValueConversionError(name)),
            }
        } else if oid == 1082 {
            match parse_date(words.as_str()) {
                Some(days) => Ok(Conversion::Value(Field::Date(days))),
                None => Err(PostgresSchemaError::ValueConversionError(name)),
            }
        } else {
            Ok(Conversion::Value(Field::String(words)))
        }
    } else {
        Err(PostgresSchemaError::ColumnTypeNotSupported(name))
    }
}

/// Takes over the text value of a column. No value is a null; a column
/// without a type is a `ColumnTypeNotFound`; else the value is taken over as
/// `convert_text` says for the identifier and the name of the column's type.
pub fn postgres_type_to_field(value: Option<&[u8]>, column: &TableColumn) -> (result: Result<
    Conversion,
    PostgresSchemaError,
>)
    ensures
        value is None ==> (result matches Ok(found) && found@ == ConversionView::Value(FieldValue::Null)),
        value is Some && column.column_type is None ==> result == Err::<Conversion, PostgresSchemaError>(
            PostgresSchemaError::ColumnTypeNotFound,
        ),
        value is Some && column.column_type is Some ==> exists|oid: u32, name: Seq<char>|
            #[trigger] answers(converted(value->Some_0@, oid), name, result),
{
    match value {
        None => Ok(Conversion::Value(Field::Null)),
        Some(v) => match &column.column_type {
            None => Err(PostgresSchemaError::ColumnTypeNotFound),
            Some(column_type) => {
                let oid = oid_of_type(column_type);
                let name = name_of_type(column_type);
                let result = convert_text(v, oid, name);
                assert(answers(converted(v@, oid), name@, result));
                result
            },
        },
    }
}

} // verus!
