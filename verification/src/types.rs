//! Rows, schemas and change operations, with the byte encodings of their values.

use crate::encoding::{be_bytes, lemma_be_bytes_injective, lemma_pow256_values, push_be, twos_complement_64};
use crate::errors::TypeError;
use vstd::prelude::*;
use vstd::utf8::{encode_utf8, encode_utf8_decode_utf8};

verus! {

/// The text of a literal, as an owned string.
pub fn text(literal: &str) -> (owned: String)
    ensures
        owned@ == literal@,
{
    literal.to_owned()
}

/// Names a schema and the revision of it.
#[derive(Clone, Copy, Debug, PartialEq, Eq, Structural)]
pub struct SchemaIdentifier {
    pub id: u32,
    pub version: u16,
}

/// The type of the values in one column.
#[derive(Clone, Copy, Debug, PartialEq, Eq, Structural)]
pub enum FieldType {
    UInt,
    Int,
    Float,
    Boolean,
    String,
    Text,
    Binary,
    Decimal,
    Timestamp,
    Date,
    Bson,
}

/// One column of a schema.
#[derive(Debug, PartialEq, Eq)]
pub struct FieldDefinition {
    pub name: String,
    pub typ: FieldType,
    pub nullable: bool,
}

/// What a `FieldDefinition` holds, as mathematical values.
pub struct FieldDefinitionView {
    pub name: Seq<char>,
    pub typ: FieldType,
    pub nullable: bool,
}

impl View for FieldDefinition {
    type V = FieldDefinitionView;

    open spec fn view(&self) -> FieldDefinitionView {
        FieldDefinitionView { name: self.name@, typ: self.typ, nullable: self.nullable }
    }
}

impl FieldDefinition {
    pub fn new(name: String, typ: FieldType, nullable: bool) -> (field: Self)
        ensures
            field@ == (FieldDefinitionView { name: name@, typ, nullable }),
    {
        Self { name, typ, nullable }
    }

    /// Whether both definitions have the same name, type and nullability.
    pub fn same_as(&self, other: &FieldDefinition) -> (same: bool)
        ensures
            same == (self@ == other@),
    {
        self.name == other.name && self.typ == other.typ && self.nullable == other.nullable
    }
}

impl Clone for FieldDefinition {
    fn clone(&self) -> (copy: Self)
        ensures
            copy@ == self@,
    {
        Self { name: self.name.clone(), typ: self.typ, nullable: self.nullable }
    }
}

/// The views of a list of column definitions.
pub open spec fn field_definition_views(fields: Seq<FieldDefinition>) -> Seq<FieldDefinitionView> {
    Seq::new(fields.len(), |i: int| fields[i]@)
}

/// The shape of the rows that flow through a port.
#[derive(Debug, PartialEq, Eq)]
pub struct Schema {
    pub identifier: Option<SchemaIdentifier>,
    pub fields: Vec<FieldDefinition>,
    pub primary_index: Vec<usize>,
}

/// What a `Schema` holds, as mathematical values.
pub struct SchemaView {
    pub identifier: Option<SchemaIdentifier>,
    pub fields: Seq<FieldDefinitionView>,
    pub primary_index: Seq<usize>,
}

impl SchemaView {
    /// Every primary-key index names a column of the schema.
    pub open spec fn well_formed(self) -> bool {
        forall|i: int| 0 <= i < self.primary_index.len() ==> self.primary_index[i] < self.fields.len()
    }
}

impl View for Schema {
    type V = SchemaView;

    open spec fn view(&self) -> SchemaView {
        SchemaView {
            identifier: self.identifier,
            fields: field_definition_views(self.fields@),
            primary_index: self.primary_index@,
        }
    }
}

impl Schema {
    /// A schema without columns, key or identifier.
    pub fn empty() -> (schema: Self)
        ensures
            schema@ == (SchemaView { identifier: None, fields: Seq::empty(), primary_index: Seq::empty() }),
    {
        let schema = Self { identifier: None, fields: Vec::new(), primary_index: Vec::new() };
        assert(schema@.fields =~= Seq::empty());
        schema
    }

    /// Whether every primary-key index names a column of the schema.
    pub fn is_well_formed(&self) -> (ok: bool)
        ensures
            ok == self@.well_formed(),
    {
        let mut i: usize = 0;
        while i < self.primary_index.len()
            invariant
                i <= self.primary_index.len(),
                forall|k: int| 0 <= k < i ==> self.primary_index@[k] < self.fields@.len(),
            decreases self.primary_index.len() - i,
        {
            if self.primary_index[i] >= self.fields.len() {
                assert(!(self@.primary_index[i as int] < self@.fields.len()));
                return false;
            }
            i = i + 1;
        }
        true
    }

    /// Whether both schemas have the same identifier, the same columns in the
    /// same order and the same primary key.
    pub fn same_as(&self, other: &Schema) -> (same: bool)
        ensures
            same == (self@ == other@),
    {
        let same_identifier = match (&self.identifier, &other.identifier) {
            (Some(a), Some(b)) => a.id == b.id && a.version == b.version,
            (None, None) => true,
            _ => false,
        };
        if !same_identifier {
            return false;
        }
        if self.fields.len() != other.fields.len() || self.primary_index.len()
            != other.primary_index.len() {
            assert(self@.fields.len() != other@.fields.len() || self@.primary_index.len()
                != other@.primary_index.len());
            return false;
        }
        let mut i: usize = 0;
        while i < self.fields.len()
            invariant
                i <= self.fields.len(),
                self.fields.len() == other.fields.len(),
                forall|k: int| 0 <= k < i ==> self.fields@[k]@ == other.fields@[k]@,
            decreases self.fields.len() - i,
        {
            if !self.fields[i].same_as(&other.fields[i]) {
                assert(self@.fields[i as int] != other@.fields[i as int]);
                return false;
            }
            i = i + 1;
        }
        let mut j: usize = 0;
        while j < self.primary_index.len()
            invariant
                j <= self.primary_index.len(),
                self.primary_index.len() == other.primary_index.len(),
                forall|k: int| 0 <= k < j ==> self.primary_index@[k] == other.primary_index@[k],
            decreases self.primary_index.len() - j,
        {
            if self.primary_index[j] != other.primary_index[j] {
                return false;
            }
            j = j + 1;
        }
        assert(self@.fields =~= other@.fields);
        assert(self@.primary_index =~= other@.primary_index);
        true
    }
}

impl Clone for Schema {
    fn clone(&self) -> (copy: Self)
        ensures
            copy@ == self@,
    {
        let mut fields: Vec<FieldDefinition> = Vec::new();
        let mut i: usize = 0;
        while i < self.fields.len()
            invariant
                i <= self.fields.len(),
                fields@.len() == i,
                forall|k: int| 0 <= k < i ==> fields@[k]@ == self.fields@[k]@,
            decreases self.fields.len() - i,
        {
            fields.push(self.fields[i].clone());
            i = i + 1;
        }
        let mut primary_index: Vec<usize> = Vec::new();
        let mut j: usize = 0;
        while j < self.primary_index.len()
            invariant
                j <= self.primary_index.len(),
                primary_index@ == self.primary_index@.subrange(0, j as int),
            decreases self.primary_index.len() - j,
        {
            primary_index.push(self.primary_index[j]);
            assert(self.primary_index@.subrange(0, j + 1) =~= self.primary_index@.subrange(
                0,
                j as int,
            ).push(self.primary_index@[j as int]));
            j = j + 1;
        }
        assert(primary_index@ =~= self.primary_index@);
        let copy = Self { identifier: self.identifier, fields, primary_index };
        assert(copy@.fields =~= self@.fields);
        copy
    }
}

/// A secondary index that a store keeps over a schema's columns.
#[derive(Debug, PartialEq, Eq)]
pub enum IndexDefinition {
    /// A sorted inverted index over the listed columns.
    SortedInverted(Vec<usize>),
    /// A full-text index over one column.
    FullText(usize),
}

/// One value of a row.
///
/// Floats are held by their IEEE 754 bit pattern, decimals by the sixteen
/// bytes of their fixed layout read as one number, timestamps as milliseconds
/// since the Unix epoch and dates as days since the start of the common era.
#[derive(Debug, PartialEq, Eq)]
pub enum Field {
    UInt(u64),
    Int(i64),
    Float(u64),
    Boolean(bool),
    String(String),
    Text(String),
    Binary(Vec<u8>),
    Decimal(u128),
    Timestamp(i64),
    Date(i32),
    Bson(Vec<u8>),
    Null,
}

/// What a `Field` holds, as a mathematical value.
pub enum FieldValue {
    UInt(u64),
    Int(i64),
    Float(u64),
    Boolean(bool),
    String(Seq<char>),
    Text(Seq<char>),
    Binary(Seq<u8>),
    Decimal(u128),
    Timestamp(i64),
    Date(i32),
    Bson(Seq<u8>),
    Null,
}

impl View for Field {
    type V = FieldValue;

    open spec fn view(&self) -> FieldValue {
        match self {
            Field::UInt(v) => FieldValue::UInt(*v),
            Field::Int(v) => FieldValue::Int(*v),
            Field::Float(v) => FieldValue::Float(*v),
            Field::Boolean(v) => FieldValue::Boolean(*v),
            Field::String(v) => FieldValue::String(v@),
            Field::Text(v) => FieldValue::Text(v@),
            Field::Binary(v) => FieldValue::Binary(v@),
            Field::Decimal(v) => FieldValue::Decimal(*v),
            Field::Timestamp(v) => FieldValue::Timestamp(*v),
            Field::Date(v) => FieldValue::Date(*v),
            Field::Bson(v) => FieldValue::Bson(v@),
            Field::Null => FieldValue::Null,
        }
    }
}

/// The byte that marks the type of an encoded value.
pub open spec fn type_prefix(value: FieldValue) -> u8 {
    match value {
        FieldValue::UInt(_) => 0,
        FieldValue::Int(_) => 1,
        FieldValue::Float(_) => 2,
        FieldValue::Boolean(_) => 3,
        FieldValue::String(_) => 4,
        FieldValue::Text(_) => 5,
        FieldValue::Binary(_) => 6,
        FieldValue::Decimal(_) => 7,
        FieldValue::Timestamp(_) => 8,
        FieldValue::Date(_) => 9,
        FieldValue::Bson(_) => 10,
        FieldValue::Null => 11,
    }
}

/// The bytes that stand for a value, without the type mark: integers big-endian
/// (signed ones in two's complement), text as UTF-8, byte strings as they are.
pub open spec fn field_data(value: FieldValue) -> Seq<u8> {
    match value {
        FieldValue::UInt(v) => be_bytes(v as nat, 8),
        FieldValue::Int(v) => be_bytes(twos_complement_64(v as int), 8),
        FieldValue::Float(v) => be_bytes(v as nat, 8),
        FieldValue::Boolean(v) => if v {
            seq![1u8]
        } else {
            seq![0u8]
        },
        FieldValue::String(v) => encode_utf8(v),
        FieldValue::Text(v) => encode_utf8(v),
        FieldValue::Binary(v) => v,
        FieldValue::Decimal(v) => be_bytes(v as nat, 16),
        FieldValue::Timestamp(v) => be_bytes(twos_complement_64(v as int), 8),
        FieldValue::Date(v) => be_bytes(twos_complement_64(v as int), 8),
        FieldValue::Bson(v) => v,
        FieldValue::Null => Seq::empty(),
    }
}

/// The type-tagged encoding of a value: its type mark, then its data.
pub open spec fn field_encoding(value: FieldValue) -> Seq<u8> {
    seq![type_prefix(value)] + field_data(value)
}

/// Different values have different encodings: a key of one column names one
/// value of the column.
pub proof fn lemma_field_encoding_injective(a: FieldValue, b: FieldValue)
    requires
        field_encoding(a) == field_encoding(b),
    ensures
        a == b,
{
    let ea = field_encoding(a);
    let eb = field_encoding(b);
    assert(ea[0] == type_prefix(a));
    assert(eb[0] == type_prefix(b));
    assert(ea.subrange(1, ea.len() as int) =~= field_data(a));
    assert(eb.subrange(1, eb.len() as int) =~= field_data(b));
    assert(field_data(a) == field_data(b));
    lemma_pow256_values();
    match (a, b) {
        (FieldValue::UInt(x), FieldValue::UInt(y)) => {
            lemma_be_bytes_injective(x as nat, y as nat, 8);
        },
        (FieldValue::Int(x), FieldValue::Int(y)) => {
            lemma_be_bytes_injective(twos_complement_64(x as int), twos_complement_64(y as int), 8);
        },
        (FieldValue::Float(x), FieldValue::Float(y)) => {
            lemma_be_bytes_injective(x as nat, y as nat, 8);
        },
        (FieldValue::Boolean(x), FieldValue::Boolean(y)) => {
            assert(field_data(a)[0] == field_data(b)[0]);
        },
        (FieldValue::String(x), FieldValue::String(y)) => {
            encode_utf8_decode_utf8(x);
            encode_utf8_decode_utf8(y);
        },
        (FieldValue::Text(x), FieldValue::Text(y)) => {
            encode_utf8_decode_utf8(x);
            encode_utf8_decode_utf8(y);
        },
        (FieldValue::Decimal(x), FieldValue::Decimal(y)) => {
            lemma_be_bytes_injective(x as nat, y as nat, 16);
        },
        (FieldValue::Timestamp(x), FieldValue::Timestamp(y)) => {
            lemma_be_bytes_injective(twos_complement_64(x as int), twos_complement_64(y as int), 8);
        },
        (FieldValue::Date(x), FieldValue::Date(y)) => {
            lemma_be_bytes_injective(twos_complement_64(x as int), twos_complement_64(y as int), 8);
        },
        _ => {},
    }
}

/// The unsigned 64-bit pattern of a signed value.
pub fn twos_complement(value: i64) -> (bits: u64)
    ensures
        bits as nat == twos_complement_64(value as int),
{
    if value >= 0 {
        value as u64
    } else {
        ((value - i64::MIN) as u64) + 0x8000_0000_0000_0000u64
    }
}

/// A copy of a byte string.
pub fn clone_bytes(bytes: &Vec<u8>) -> (copy: Vec<u8>)
    ensures
        copy@ == bytes@,
{
    let mut copy: Vec<u8> = Vec::new();
    copy.extend_from_slice(bytes.as_slice());
    assert(copy@ =~= bytes@);
    copy
}

impl Field {
    /// The byte that marks this value's type in its encoding.
    pub fn get_type_prefix(&self) -> (prefix: u8)
        ensures
            prefix == type_prefix(self@),
    {
        match self {
            Field::UInt(_) => 0,
            Field::Int(_) => 1,
            Field::Float(_) => 2,
            Field::Boolean(_) => 3,
            Field::String(_) => 4,
            Field::Text(_) => 5,
            Field::Binary(_) => 6,
            Field::Decimal(_) => 7,
            Field::Timestamp(_) => 8,
            Field::Date(_) => 9,
            Field::Bson(_) => 10,
            Field::Null => 11,
        }
    }

    /// Appends the type-tagged encoding of this value to `out`.
    pub fn encode_buf(&self, out: &mut Vec<u8>)
        ensures
            final(out)@ == old(out)@ + field_encoding(self@),
    {
        let ghost start = out@;
        out.push(self.get_type_prefix());
        match self {
            Field::UInt(v) => push_be(out, *v as u128, 8),
            Field::Int(v) => push_be(out, twos_complement(*v) as u128, 8),
            Field::Float(v) => push_be(out, *v as u128, 8),
            Field::Boolean(v) => out.push(
                if *v {
                    1u8
                } else {
                    0u8
                },
            ),
            Field::String(v) => out.extend_from_slice(v.as_str().as_bytes()),
            Field::Text(v) => out.extend_from_slice(v.as_str().as_bytes()),
            Field::Binary(v) => out.extend_from_slice(v.as_slice()),
            Field::Decimal(v) => push_be(out, *v, 16),
            Field::Timestamp(v) => push_be(out, twos_complement(*v) as u128, 8),
            Field::Date(v) => push_be(out, twos_complement(*v as i64) as u128, 8),
            Field::Bson(v) => out.extend_from_slice(v.as_slice()),
            Field::Null => {},
        }
        assert(out@ =~= start + field_encoding(self@));
    }

    /// The type-tagged encoding of this value.
    pub fn encode(&self) -> (bytes: Vec<u8>)
        ensures
            bytes@ == field_encoding(self@),
    {
        let mut bytes: Vec<u8> = Vec::new();
        self.encode_buf(&mut bytes);
        assert(bytes@ =~= field_encoding(self@));
        bytes
    }
}

impl Clone for Field {
    fn clone(&self) -> (copy: Self)
        ensures
            copy@ == self@,
    {
        match self {
            Field::UInt(v) => Field::UInt(*v),
            Field::Int(v) => Field::Int(*v),
            Field::Float(v) => Field::Float(*v),
            Field::Boolean(v) => Field::Boolean(*v),
            Field::String(v) => Field::String(v.clone()),
            Field::Text(v) => Field::Text(v.clone()),
            Field::Binary(v) => Field::Binary(clone_bytes(v)),
            Field::Decimal(v) => Field::Decimal(*v),
            Field::Timestamp(v) => Field::Timestamp(*v),
            Field::Date(v) => Field::Date(*v),
            Field::Bson(v) => Field::Bson(clone_bytes(v)),
            Field::Null => Field::Null,
        }
    }
}

/// The type of a value; a null has none.
pub open spec fn type_of(value: FieldValue) -> Option<FieldType> {
    match value {
        FieldValue::UInt(_) => Some(FieldType::UInt),
        FieldValue::Int(_) => Some(FieldType::Int),
        FieldValue::Float(_) => Some(FieldType::Float),
        FieldValue::Boolean(_) => Some(FieldType::Boolean),
        FieldValue::String(_) => Some(FieldType::String),
        FieldValue::Text(_) => Some(FieldType::Text),
        FieldValue::Binary(_) => Some(FieldType::Binary),
        FieldValue::Decimal(_) => Some(FieldType::Decimal),
        FieldValue::Timestamp(_) => Some(FieldType::Timestamp),
        FieldValue::Date(_) => Some(FieldType::Date),
        FieldValue::Bson(_) => Some(FieldType::Bson),
        FieldValue::Null => None,
    }
}

/// The value can stand in the column: it has the type of the column, or it
/// is a null and the column takes nulls.
pub open spec fn fits(value: FieldValue, column: FieldDefinitionView) -> bool {
    match type_of(value) {
        Some(typ) => typ == column.typ,
        None => column.nullable,
    }
}

/// The row has the shape of the schema: as many values as the schema has
/// columns, each fitting its column.
pub open spec fn conforms(record: RecordView, schema: SchemaView) -> bool {
    &&& record.values.len() == schema.fields.len()
    &&& forall|i: int| 0 <= i < record.values.len() ==> fits(#[trigger] record.values[i], schema.fields[i])
}

impl Field {
    /// The type of this value; a null has none.
    pub fn field_type(&self) -> (typ: Option<FieldType>)
        ensures
            typ == type_of(self@),
    {
        match self {
            Field::UInt(_) => Some(FieldType::UInt),
            Field::Int(_) => Some(FieldType::Int),
            Field::Float(_) => Some(FieldType::Float),
            Field::Boolean(_) => Some(FieldType::Boolean),
            Field::String(_) => Some(FieldType::String),
            Field::Text(_) => Some(FieldType::Text),
            Field::Binary(_) => Some(FieldType::Binary),
            Field::Decimal(_) => Some(FieldType::Decimal),
            Field::Timestamp(_) => Some(FieldType::Timestamp),
            Field::Date(_) => Some(FieldType::Date),
            Field::Bson(_) => Some(FieldType::Bson),
            Field::Null => None,
        }
    }
}

/// The views of a list of values.
pub open spec fn field_views(values: Seq<Field>) -> Seq<FieldValue> {
    Seq::new(values.len(), |i: int| values[i]@)
}

/// A copy of a list of values.
pub fn clone_fields(values: &Vec<Field>) -> (copy: Vec<Field>)
    ensures
        field_views(copy@) == field_views(values@),
{
    let mut copy: Vec<Field> = Vec::new();
    let mut i: usize = 0;
    while i < values.len()
        invariant
            i <= values.len(),
            copy@.len() == i,
            forall|k: int| 0 <= k < i ==> copy@[k]@ == values@[k]@,
        decreases values.len() - i,
    {
        copy.push(values[i].clone());
        i = i + 1;
    }
    assert(field_views(copy@) =~= field_views(values@));
    copy
}

/// One row.
#[derive(Debug, PartialEq, Eq)]
pub struct Record {
    pub schema_id: Option<SchemaIdentifier>,
    pub values: Vec<Field>,
    pub version: Option<u32>,
}

/// What a `Record` holds, as mathematical values.
pub struct RecordView {
    pub schema_id: Option<SchemaIdentifier>,
    pub values: Seq<FieldValue>,
    pub version: Option<u32>,
}

impl View for Record {
    type V = RecordView;

    open spec fn view(&self) -> RecordView {
        RecordView {
            schema_id: self.schema_id,
            values: field_views(self.values@),
            version: self.version,
        }
    }
}

/// The encodings of the values at `indexes`, one after the other in the order
/// of `indexes`.
pub open spec fn composite_key(values: Seq<FieldValue>, indexes: Seq<usize>) -> Seq<u8>
    decreases indexes.len(),
{
    if indexes.len() == 0 {
        Seq::empty()
    } else {
        composite_key(values, indexes.drop_last()) + field_encoding(values[indexes.last() as int])
    }
}

/// Every index names a value of the row.
pub open spec fn indexes_in_range(indexes: Seq<usize>, len: nat) -> bool {
    forall|i: int| 0 <= i < indexes.len() ==> indexes[i] < len
}

impl Record {
    pub fn new(schema_id: Option<SchemaIdentifier>, values: Vec<Field>, version: Option<u32>) -> (record: Self)
        ensures
            record@ == (RecordView { schema_id, values: field_views(values@), version }),
            record.values == values,
    {
        Self { schema_id, values, version }
    }

    /// A row of `size` nulls.
    pub fn nulls(schema_id: Option<SchemaIdentifier>, size: usize, version: Option<u32>) -> (record: Self)
        ensures
            record@ == (RecordView {
                schema_id,
                values: Seq::new(size as nat, |i: int| FieldValue::Null),
                version,
            }),
    {
        let mut values: Vec<Field> = Vec::new();
        let mut i: usize = 0;
        while i < size
            invariant
                i <= size,
                values@.len() == i,
                forall|k: int| 0 <= k < i ==> values@[k]@ == FieldValue::Null,
            decreases size - i,
        {
            values.push(Field::Null);
            i = i + 1;
        }
        let record = Self { schema_id, values, version };
        assert(record@.values =~= Seq::new(size as nat, |i: int| FieldValue::Null));
        record
    }

    /// Whether the row has the shape of `schema`.
    pub fn conforms_to(&self, schema: &Schema) -> (ok: bool)
        ensures
            ok == conforms(self@, schema@),
    {
        if self.values.len() != schema.fields.len() {
            return false;
        }
        let mut i: usize = 0;
        while i < self.values.len()
            invariant
                i <= self.values@.len(),
                self.values@.len() == schema.fields@.len(),
                forall|k: int| 0 <= k < i ==> fits(#[trigger] self@.values[k], schema@.fields[k]),
            decreases self.values@.len() - i,
        {
            let fitting = match self.values[i].field_type() {
                Some(typ) => typ == schema.fields[i].typ,
                None => schema.fields[i].nullable,
            };
            if !fitting {
                assert(!fits(self@.values[i as int], schema@.fields[i as int]));
                return false;
            }
            i = i + 1;
        }
        true
    }

    /// The value at `idx`, or `InvalidFieldIndex` where the row has none there.
    pub fn get_value(&self, idx: usize) -> (value: Result<&Field, TypeError>)
        ensures
            idx < self.values@.len() ==> value == Ok::<&Field, TypeError>(&self.values@[idx as int]),
            idx >= self.values@.len() ==> value == Err::<&Field, TypeError>(
                TypeError::InvalidFieldIndex(idx),
            ),
    {
        if idx < self.values.len() {
            Ok(&self.values[idx])
        } else {
            Err(TypeError::InvalidFieldIndex(idx))
        }
    }

    /// Puts `value` at `idx`.
    pub fn set_value(&mut self, idx: usize, value: Field)
        requires
            idx < old(self).values@.len(),
        ensures
            final(self)@ == (RecordView { values: old(self)@.values.update(idx as int, value@), ..old(self)@ }),
    {
        self.values[idx] = value;
        assert(self@.values =~= old(self)@.values.update(idx as int, value@));
    }

    /// The key of this row under the given key columns: the encodings of
    /// those values, one after the other.
    pub fn get_key(&self, indexes: &Vec<usize>) -> (key: Vec<u8>)
        requires
            indexes_in_range(indexes@, self.values@.len()),
        ensures
            key@ == composite_key(self@.values, indexes@),
    {
        let mut key: Vec<u8> = Vec::new();
        let mut i: usize = 0;
        while i < indexes.len()
            invariant
                i <= indexes.len(),
                indexes_in_range(indexes@, self.values@.len()),
                key@ == composite_key(self@.values, indexes@.subrange(0, i as int)),
            decreases indexes.len() - i,
        {
            let idx = indexes[i];
            self.values[idx].encode_buf(&mut key);
            proof {
                let next = indexes@.subrange(0, i + 1);
                assert(next.drop_last() =~= indexes@.subrange(0, i as int));
                assert(next.last() == idx);
            }
            i = i + 1;
        }
        assert(indexes@.subrange(0, i as int) =~= indexes@);
        key
    }
}

impl Clone for Record {
    fn clone(&self) -> (copy: Self)
        ensures
            copy@ == self@,
    {
        Self { schema_id: self.schema_id, values: clone_fields(&self.values), version: self.version }
    }
}

/// One change of a row.
#[derive(Debug, PartialEq, Eq)]
pub enum Operation {
    Delete { old: Record },
    Insert { new: Record },
    Update { old: Record, new: Record },
}

/// What an `Operation` holds, as mathematical values.
pub enum OperationView {
    Delete { old: RecordView },
    Insert { new: RecordView },
    Update { old: RecordView, new: RecordView },
}

impl View for Operation {
    type V = OperationView;

    open spec fn view(&self) -> OperationView {
        match self {
            Operation::Delete { old } => OperationView::Delete { old: old@ },
            Operation::Insert { new } => OperationView::Insert { new: new@ },
            Operation::Update { old, new } => OperationView::Update { old: old@, new: new@ },
        }
    }
}

impl Clone for Operation {
    fn clone(&self) -> (copy: Self)
        ensures
            copy@ == self@,
    {
        match self {
            Operation::Delete { old } => Operation::Delete { old: old.clone() },
            Operation::Insert { new } => Operation::Insert { new: new.clone() },
            Operation::Update { old, new } => Operation::Update { old: old.clone(), new: new.clone() },
        }
    }
}

} // verus!
