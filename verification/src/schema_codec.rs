//! The byte format in which schemas are kept between runs, with its reader
//! and the proof that reading gives back what was written.
//!
//! A schema is written as its identifier (a presence byte, then four bytes
//! of id and two of version), the number of its columns in eight bytes, the
//! columns, the number of its key columns in eight bytes, and the indexes of
//! the key columns in eight bytes each. A column is its name as UTF-8 behind
//! its length in eight bytes, the mark of its type, and a byte that is one
//! where the column takes nulls. All numbers are big-endian.

use crate::codec::{
    holds_at, lemma_holds_at_split, lemma_parse_be_of_encoding, lemma_parse_bytes_of_encoding,
    lemma_parse_text_of_encoding, length_prefixed, parse_be_at, parse_bytes_at, parse_schema_id_at, parse_text_at,
    push_length_prefixed, read_bytes, read_schema_id, read_text, serialized_schema_id,
};
use crate::dag_schemas::{port_schema_views, NodeSchemas, NodeSchemasView, PortSchema};
use crate::node::PortHandle;
use crate::encoding::{be_bytes, lemma_be_bytes_len, lemma_be_bytes_of_value, lemma_pow256_values, pow256, push_be, read_be};
use crate::types::{
    field_definition_views, FieldDefinition, FieldDefinitionView, FieldType, Schema, SchemaIdentifier, SchemaView,
};
use vstd::prelude::*;
use vstd::utf8::encode_utf8;

verus! {

/// The byte that marks a type of column.
pub open spec fn type_mark(typ: FieldType) -> u8 {
    match typ {
        FieldType::UInt => 0,
        FieldType::Int => 1,
        FieldType::Float => 2,
        FieldType::Boolean => 3,
        FieldType::String => 4,
        FieldType::Text => 5,
        FieldType::Binary => 6,
        FieldType::Decimal => 7,
        FieldType::Timestamp => 8,
        FieldType::Date => 9,
        FieldType::Bson => 10,
    }
}

/// The type of column that a byte marks.
pub open spec fn marked_type(mark: u8) -> Option<FieldType> {
    if mark == 0 {
        Some(FieldType::UInt)
    } else if mark == 1 {
        Some(FieldType::Int)
    } else if mark == 2 {
        Some(FieldType::Float)
    } else if mark == 3 {
        Some(FieldType::Boolean)
    } else if mark == 4 {
        Some(FieldType::String)
    } else if mark == 5 {
        Some(FieldType::Text)
    } else if mark == 6 {
        Some(FieldType::Binary)
    } else if mark == 7 {
        Some(FieldType::Decimal)
    } else if mark == 8 {
        Some(FieldType::Timestamp)
    } else if mark == 9 {
        Some(FieldType::Date)
    } else if mark == 10 {
        Some(FieldType::Bson)
    } else {
        None
    }
}

/// The stored form of a column.
pub open spec fn serialized_column(column: FieldDefinitionView) -> Seq<u8> {
    length_prefixed(encode_utf8(column.name)) + seq![
        type_mark(column.typ),
        if column.nullable {
            1u8
        } else {
            0u8
        },
    ]
}

/// The stored forms of a list of columns, one after the other.
pub open spec fn serialized_columns(columns: Seq<FieldDefinitionView>) -> Seq<u8>
    decreases columns.len(),
{
    if columns.len() == 0 {
        Seq::empty()
    } else {
        serialized_columns(columns.drop_last()) + serialized_column(columns.last())
    }
}

/// The stored form of the indexes of the key columns.
pub open spec fn serialized_indexes(indexes: Seq<usize>) -> Seq<u8>
    decreases indexes.len(),
{
    if indexes.len() == 0 {
        Seq::empty()
    } else {
        serialized_indexes(indexes.drop_last()) + be_bytes(indexes.last() as nat, 8)
    }
}

/// The stored form of a schema.
pub open spec fn serialized_schema(schema: SchemaView) -> Seq<u8> {
    serialized_schema_id(schema.identifier) + be_bytes(schema.fields.len(), 8) + serialized_columns(schema.fields)
        + be_bytes(schema.primary_index.len(), 8) + serialized_indexes(schema.primary_index)
}

/// The stored column at `pos`, and the position behind it.
pub open spec fn parse_column_at(bytes: Seq<u8>, pos: int) -> Option<(FieldDefinitionView, int)> {
    match parse_text_at(bytes, pos) {
        None => None,
        Some((name, at_mark)) => if at_mark + 2 <= bytes.len() && bytes[at_mark + 1] <= 1 {
            match marked_type(bytes[at_mark]) {
                None => None,
                Some(typ) => Some((FieldDefinitionView { name, typ, nullable: bytes[at_mark + 1] == 1 }, at_mark + 2)),
            }
        } else {
            None
        },
    }
}

/// The `count` stored columns from `pos` on, and the position behind them.
pub open spec fn parse_columns_at(bytes: Seq<u8>, pos: int, count: nat) -> Option<(Seq<FieldDefinitionView>, int)>
    decreases count,
{
    if count == 0 {
        Some((Seq::empty(), pos))
    } else {
        match parse_columns_at(bytes, pos, (count - 1) as nat) {
            None => None,
            Some((front, mid)) => match parse_column_at(bytes, mid) {
                None => None,
                Some((column, next)) => Some((front.push(column), next)),
            },
        }
    }
}

/// The `count` stored indexes from `pos` on, and the position behind them.
pub open spec fn parse_indexes_at(bytes: Seq<u8>, pos: int, count: nat) -> Option<(Seq<usize>, int)>
    decreases count,
{
    if count == 0 {
        Some((Seq::empty(), pos))
    } else {
        match parse_indexes_at(bytes, pos, (count - 1) as nat) {
            None => None,
            Some((front, mid)) => match parse_be_at(bytes, mid, 8) {
                None => None,
                Some((index, next)) => if index <= usize::MAX {
                    Some((front.push(index as usize), next))
                } else {
                    None
                },
            },
        }
    }
}

/// The schema that `bytes` is the stored form of, if it is one.
pub open spec fn parse_schema(bytes: Seq<u8>) -> Option<SchemaView> {
    match parse_schema_id_at(bytes, 0) {
        None => None,
        Some((identifier, at_count)) => match parse_be_at(bytes, at_count, 8) {
            None => None,
            Some((count, at_columns)) => match parse_columns_at(bytes, at_columns, count) {
                None => None,
                Some((fields, at_keys)) => match parse_be_at(bytes, at_keys, 8) {
                    None => None,
                    Some((keys, at_indexes)) => match parse_indexes_at(bytes, at_indexes, keys) {
                        None => None,
                        Some((primary_index, end)) => if end == bytes.len() {
                            Some(SchemaView { identifier, fields, primary_index })
                        } else {
                            None
                        },
                    },
                },
            },
        },
    }
}

/// The lengths in a schema fit the eight bytes that the stored form gives them.
pub open spec fn schema_storable(schema: SchemaView) -> bool {
    &&& schema.fields.len() < pow256(8)
    &&& schema.primary_index.len() < pow256(8)
    &&& forall|i: int| 0 <= i < schema.fields.len() ==> encode_utf8((#[trigger] schema.fields[i]).name).len() < pow256(8)
}

proof fn lemma_parse_schema_id_of_encoding(bytes: Seq<u8>, pos: int, identifier: Option<SchemaIdentifier>)
    requires
        holds_at(bytes, pos, serialized_schema_id(identifier)),
    ensures
        parse_schema_id_at(bytes, pos) == Some((identifier, pos + serialized_schema_id(identifier).len())),
{
    lemma_pow256_values();
    match identifier {
        None => {
            assert(bytes[pos] == bytes.subrange(pos, pos + 1)[0]);
        },
        Some(s) => {
            let id_bytes = be_bytes(s.id as nat, 4);
            let version_bytes = be_bytes(s.version as nat, 2);
            lemma_be_bytes_len(s.id as nat, 4);
            lemma_be_bytes_len(s.version as nat, 2);
            lemma_holds_at_split(bytes, pos, seq![1u8] + id_bytes, version_bytes);
            lemma_holds_at_split(bytes, pos, seq![1u8], id_bytes);
            assert(bytes[pos] == bytes.subrange(pos, pos + 1)[0]);
            lemma_parse_be_of_encoding(bytes, pos + 1, s.id as nat, 4);
            lemma_parse_be_of_encoding(bytes, pos + 5, s.version as nat, 2);
        },
    }
}

proof fn lemma_parse_column_of_encoding(bytes: Seq<u8>, pos: int, column: FieldDefinitionView)
    requires
        encode_utf8(column.name).len() < pow256(8),
        holds_at(bytes, pos, serialized_column(column)),
    ensures
        parse_column_at(bytes, pos) == Some((column, pos + serialized_column(column).len())),
{
    let name = length_prefixed(encode_utf8(column.name));
    let tail = seq![
        type_mark(column.typ),
        if column.nullable {
            1u8
        } else {
            0u8
        },
    ];
    lemma_be_bytes_len(encode_utf8(column.name).len(), 8);
    lemma_holds_at_split(bytes, pos, name, tail);
    lemma_parse_text_of_encoding(bytes, pos, column.name);
    let at_mark = pos + name.len();
    assert(bytes[at_mark] == bytes.subrange(at_mark, at_mark + 2)[0]);
    assert(bytes[at_mark + 1] == bytes.subrange(at_mark, at_mark + 2)[1]);
    assert(marked_type(type_mark(column.typ)) == Some(column.typ));
}

proof fn lemma_parse_columns_of_encoding(bytes: Seq<u8>, pos: int, columns: Seq<FieldDefinitionView>)
    requires
        forall|i: int| 0 <= i < columns.len() ==> encode_utf8((#[trigger] columns[i]).name).len() < pow256(8),
        holds_at(bytes, pos, serialized_columns(columns)),
    ensures
        parse_columns_at(bytes, pos, columns.len()) == Some((columns, pos + serialized_columns(columns).len())),
    decreases columns.len(),
{
    if columns.len() == 0 {
        assert(columns =~= Seq::empty());
    } else {
        let front = columns.drop_last();
        lemma_holds_at_split(bytes, pos, serialized_columns(front), serialized_column(columns.last()));
        assert forall|i: int| 0 <= i < front.len() implies encode_utf8((#[trigger] front[i]).name).len() < pow256(
            8,
        ) by {
            assert(front[i] == columns[i]);
        }
        lemma_parse_columns_of_encoding(bytes, pos, front);
        lemma_parse_column_of_encoding(bytes, pos + serialized_columns(front).len(), columns.last());
        assert(front.push(columns.last()) =~= columns);
    }
}

proof fn lemma_parse_indexes_of_encoding(bytes: Seq<u8>, pos: int, indexes: Seq<usize>)
    requires
        holds_at(bytes, pos, serialized_indexes(indexes)),
    ensures
        parse_indexes_at(bytes, pos, indexes.len()) == Some((indexes, pos + serialized_indexes(indexes).len())),
    decreases indexes.len(),
{
    if indexes.len() == 0 {
        assert(indexes =~= Seq::empty());
    } else {
        let front = indexes.drop_last();
        lemma_pow256_values();
        lemma_be_bytes_len(indexes.last() as nat, 8);
        lemma_holds_at_split(bytes, pos, serialized_indexes(front), be_bytes(indexes.last() as nat, 8));
        lemma_parse_indexes_of_encoding(bytes, pos, front);
        lemma_parse_be_of_encoding(bytes, pos + serialized_indexes(front).len(), indexes.last() as nat, 8);
        assert(front.push(indexes.last()) =~= indexes);
    }
}

/// Round trip: reading the stored form of a schema gives the schema back.
pub proof fn lemma_parse_serialized_schema(schema: SchemaView)
    requires
        schema_storable(schema),
    ensures
        parse_schema(serialized_schema(schema)) == Some(schema),
{
    let bytes = serialized_schema(schema);
    let a = serialized_schema_id(schema.identifier);
    let b = be_bytes(schema.fields.len(), 8);
    let c = serialized_columns(schema.fields);
    let d = be_bytes(schema.primary_index.len(), 8);
    let e = serialized_indexes(schema.primary_index);
    lemma_pow256_values();
    lemma_be_bytes_len(schema.fields.len(), 8);
    lemma_be_bytes_len(schema.primary_index.len(), 8);
    assert(bytes.subrange(0, bytes.len() as int) =~= bytes);
    assert(holds_at(bytes, 0, (((a + b) + c) + d) + e));
    lemma_holds_at_split(bytes, 0, ((a + b) + c) + d, e);
    lemma_holds_at_split(bytes, 0, (a + b) + c, d);
    lemma_holds_at_split(bytes, 0, a + b, c);
    lemma_holds_at_split(bytes, 0, a, b);
    lemma_parse_schema_id_of_encoding(bytes, 0, schema.identifier);
    lemma_parse_be_of_encoding(bytes, a.len() as int, schema.fields.len(), 8);
    lemma_parse_columns_of_encoding(bytes, (a.len() + 8) as int, schema.fields);
    lemma_parse_be_of_encoding(bytes, (a.len() + 8 + c.len()) as int, schema.primary_index.len(), 8);
    lemma_parse_indexes_of_encoding(bytes, (a.len() + 8 + c.len() + 8) as int, schema.primary_index);
}

fn mark_of(typ: FieldType) -> (mark: u8)
    ensures
        mark == type_mark(typ),
{
    match typ {
        FieldType::UInt => 0,
        FieldType::Int => 1,
        FieldType::Float => 2,
        FieldType::Boolean => 3,
        FieldType::String => 4,
        FieldType::Text => 5,
        FieldType::Binary => 6,
        FieldType::Decimal => 7,
        FieldType::Timestamp => 8,
        FieldType::Date => 9,
        FieldType::Bson => 10,
    }
}

fn type_of_mark(mark: u8) -> (typ: Option<FieldType>)
    ensures
        typ == marked_type(mark),
{
    if mark == 0 {
        Some(FieldType::UInt)
    } else if mark == 1 {
        Some(FieldType::Int)
    } else if mark == 2 {
        Some(FieldType::Float)
    } else if mark == 3 {
        Some(FieldType::Boolean)
    } else if mark == 4 {
        Some(FieldType::String)
    } else if mark == 5 {
        Some(FieldType::Text)
    } else if mark == 6 {
        Some(FieldType::Binary)
    } else if mark == 7 {
        Some(FieldType::Decimal)
    } else if mark == 8 {
        Some(FieldType::Timestamp)
    } else if mark == 9 {
        Some(FieldType::Date)
    } else if mark == 10 {
        Some(FieldType::Bson)
    } else {
        None
    }
}

/// The stored form of `schema`.
pub fn serialize_schema(schema: &Schema) -> (bytes: Vec<u8>)
    ensures
        bytes@ == serialized_schema(schema@),
        parse_schema(bytes@) == Some(schema@),
{
    let mut bytes: Vec<u8> = Vec::new();
    match schema.identifier {
        None => bytes.push(0u8),
        Some(s) => {
            bytes.push(1u8);
            push_be(&mut bytes, s.id as u128, 4);
            push_be(&mut bytes, s.version as u128, 2);
        },
    }
    assert(bytes@ =~= serialized_schema_id(schema@.identifier));
    push_be(&mut bytes, schema.fields.len() as u128, 8);
    let ghost head = bytes@;
    let mut i: usize = 0;
    proof {
        assert(schema@.fields.subrange(0, 0) =~= Seq::<FieldDefinitionView>::empty());
        assert(head + Seq::<u8>::empty() =~= head);
    }
    while i < schema.fields.len()
        invariant
            i <= schema.fields@.len(),
            bytes@ == head + serialized_columns(schema@.fields.subrange(0, i as int)),
            forall|k: int| 0 <= k < i ==> encode_utf8((#[trigger] schema@.fields[k]).name).len() < pow256(8),
        decreases schema.fields@.len() - i,
    {
        let ghost before = bytes@;
        let column = &schema.fields[i];
        push_length_prefixed(&mut bytes, column.name.as_str().as_bytes());
        bytes.push(mark_of(column.typ));
        bytes.push(
            if column.nullable {
                1u8
            } else {
                0u8
            },
        );
        proof {
            let next = schema@.fields.subrange(0, i + 1);
            assert(next.drop_last() =~= schema@.fields.subrange(0, i as int));
            assert(next.last() == column@);
            assert(bytes@ =~= before + serialized_column(column@));
            assert(bytes@ =~= head + serialized_columns(next));
        }
        i = i + 1;
    }
    proof {
        assert(schema@.fields.subrange(0, i as int) =~= schema@.fields);
    }
    push_be(&mut bytes, schema.primary_index.len() as u128, 8);
    let ghost middle = bytes@;
    let mut j: usize = 0;
    proof {
        assert(schema@.primary_index.subrange(0, 0) =~= Seq::<usize>::empty());
        assert(middle + Seq::<u8>::empty() =~= middle);
    }
    while j < schema.primary_index.len()
        invariant
            j <= schema.primary_index@.len(),
            bytes@ == middle + serialized_indexes(schema@.primary_index.subrange(0, j as int)),
        decreases schema.primary_index@.len() - j,
    {
        let ghost before = bytes@;
        push_be(&mut bytes, schema.primary_index[j] as u128, 8);
        proof {
            let next = schema@.primary_index.subrange(0, j + 1);
            assert(next.drop_last() =~= schema@.primary_index.subrange(0, j as int));
            assert(next.last() == schema.primary_index@[j as int]);
            assert(bytes@ =~= middle + serialized_indexes(next));
        }
        j = j + 1;
    }
    proof {
        assert(schema@.primary_index.subrange(0, j as int) =~= schema@.primary_index);
        assert(bytes@ =~= serialized_schema(schema@));
        lemma_pow256_values();
        lemma_parse_serialized_schema(schema@);
    }
    bytes
}

proof fn lemma_parse_columns_fails(bytes: Seq<u8>, pos: int, failing: nat, count: nat)
    requires
        failing <= count,
        parse_columns_at(bytes, pos, failing) is None,
    ensures
        parse_columns_at(bytes, pos, count) is None,
    decreases count,
{
    if failing < count {
        lemma_parse_columns_fails(bytes, pos, failing, (count - 1) as nat);
    }
}

proof fn lemma_parse_indexes_fails(bytes: Seq<u8>, pos: int, failing: nat, count: nat)
    requires
        failing <= count,
        parse_indexes_at(bytes, pos, failing) is None,
    ensures
        parse_indexes_at(bytes, pos, count) is None,
    decreases count,
{
    if failing < count {
        lemma_parse_indexes_fails(bytes, pos, failing, (count - 1) as nat);
    }
}

/// Reads the stored column at `pos`.
fn read_column(bytes: &[u8], pos: usize) -> (found: Option<(FieldDefinition, usize)>)
    ensures
        match parse_column_at(bytes@, pos as int) {
            Some((column, next)) => found matches Some((c, n)) && c@ == column && n == next && n <= bytes@.len(),
            None => found is None,
        },
{
    let (name, at_mark) = match read_text(bytes, pos) {
        None => {
            return None;
        },
        Some(found) => found,
    };
    let len = bytes.len();
    if len - at_mark < 2 || bytes[at_mark + 1] > 1 {
        return None;
    }
    match type_of_mark(bytes[at_mark]) {
        None => None,
        Some(typ) => Some((FieldDefinition { name, typ, nullable: bytes[at_mark + 1] == 1 }, at_mark + 2)),
    }
}

/// Reads `count` stored columns from `pos` on.
fn read_columns(bytes: &[u8], pos: usize, count: u128) -> (found: Option<(Vec<FieldDefinition>, usize)>)
    requires
        pos <= bytes@.len(),
    ensures
        match parse_columns_at(bytes@, pos as int, count as nat) {
            Some((columns, next)) => found matches Some((c, n)) && field_definition_views(c@) == columns && n == next
                && n <= bytes@.len(),
            None => found is None,
        },
{
    let mut columns: Vec<FieldDefinition> = Vec::new();
    let mut at: usize = pos;
    let mut i: u128 = 0;
    proof {
        assert(field_definition_views(columns@) =~= Seq::<FieldDefinitionView>::empty());
    }
    while i < count
        invariant
            i <= count,
            at <= bytes@.len(),
            parse_columns_at(bytes@, pos as int, i as nat) == Some((field_definition_views(columns@), at as int)),
        decreases count - i,
    {
        match read_column(bytes, at) {
            None => {
                proof {
                    assert(parse_columns_at(bytes@, pos as int, (i + 1) as nat) is None);
                    lemma_parse_columns_fails(bytes@, pos as int, (i + 1) as nat, count as nat);
                }
                return None;
            },
            Some((column, next)) => {
                proof {
                    assert(field_definition_views(columns@.push(column)) =~= field_definition_views(columns@).push(
                        column@,
                    ));
                }
                columns.push(column);
                at = next;
                i = i + 1;
            },
        }
    }
    Some((columns, at))
}

/// Reads `count` stored indexes from `pos` on.
fn read_indexes(bytes: &[u8], pos: usize, count: u128) -> (found: Option<(Vec<usize>, usize)>)
    requires
        pos <= bytes@.len(),
    ensures
        match parse_indexes_at(bytes@, pos as int, count as nat) {
            Some((indexes, next)) => found matches Some((v, n)) && v@ == indexes && n == next && n <= bytes@.len(),
            None => found is None,
        },
{
    let mut indexes: Vec<usize> = Vec::new();
    let total = bytes.len();
    let mut at: usize = pos;
    let mut i: u128 = 0;
    proof {
        assert(indexes@ =~= Seq::<usize>::empty());
    }
    while i < count
        invariant
            i <= count,
            total == bytes@.len(),
            at <= bytes@.len(),
            parse_indexes_at(bytes@, pos as int, i as nat) == Some((indexes@, at as int)),
        decreases count - i,
    {
        let index = match read_be(bytes, at, 8) {
            Some(index) if index <= usize::MAX as u128 => index,
            _ => {
                proof {
                    assert(parse_indexes_at(bytes@, pos as int, (i + 1) as nat) is None);
                    lemma_parse_indexes_fails(bytes@, pos as int, (i + 1) as nat, count as nat);
                }
                return None;
            },
        };
        indexes.push(index as usize);
        at = at + 8;
        i = i + 1;
    }
    Some((indexes, at))
}

/// The schema that `bytes` is the stored form of, or `None` where it is none.
pub fn deserialize_schema(bytes: &[u8]) -> (found: Option<Schema>)
    ensures
        match parse_schema(bytes@) {
            Some(schema) => found matches Some(s) && s@ == schema,
            None => found is None,
        },
{
    let total = bytes.len();
    let (identifier, at_count) = match read_schema_id(bytes, 0) {
        None => {
            return None;
        },
        Some(found) => found,
    };
    let count = match read_be(bytes, at_count, 8) {
        None => {
            return None;
        },
        Some(count) => count,
    };
    let (fields, at_keys) = match read_columns(bytes, at_count + 8, count) {
        None => {
            return None;
        },
        Some(found) => found,
    };
    let keys = match read_be(bytes, at_keys, 8) {
        None => {
            return None;
        },
        Some(keys) => keys,
    };
    let (primary_index, end) = match read_indexes(bytes, at_keys + 8, keys) {
        None => {
            return None;
        },
        Some(found) => found,
    };
    if end != total {
        return None;
    }
    Some(Schema { identifier, fields, primary_index })
}

/// The stored form of the schema of a port: the port in two bytes, then the
/// stored form of the schema behind its length in eight bytes.
pub open spec fn serialized_port_schema(entry: (PortHandle, SchemaView)) -> Seq<u8> {
    be_bytes(entry.0 as nat, 2) + length_prefixed(serialized_schema(entry.1))
}

/// The stored forms of the schemas of a list of ports, one after the other.
pub open spec fn serialized_port_schemas(entries: Seq<(PortHandle, SchemaView)>) -> Seq<u8>
    decreases entries.len(),
{
    if entries.len() == 0 {
        Seq::empty()
    } else {
        serialized_port_schemas(entries.drop_last()) + serialized_port_schema(entries.last())
    }
}

/// The stored form of the schemas of a node: the number of its input ports
/// in eight bytes, their schemas, the number of its output ports in eight
/// bytes, their schemas.
pub open spec fn serialized_node_schemas(schemas: NodeSchemasView) -> Seq<u8> {
    be_bytes(schemas.input_schemas.len(), 8) + serialized_port_schemas(schemas.input_schemas) + be_bytes(
        schemas.output_schemas.len(),
        8,
    ) + serialized_port_schemas(schemas.output_schemas)
}

/// The stored schema of a port at `pos`, and the position behind it.
pub open spec fn parse_port_schema_at(bytes: Seq<u8>, pos: int) -> Option<((PortHandle, SchemaView), int)> {
    match parse_be_at(bytes, pos, 2) {
        None => None,
        Some((port, at_schema)) => match parse_bytes_at(bytes, at_schema) {
            None => None,
            Some((raw, next)) => match parse_schema(raw) {
                None => None,
                Some(schema) => Some(((port as PortHandle, schema), next)),
            },
        },
    }
}

/// The `count` stored schemas of ports from `pos` on, and the position behind them.
pub open spec fn parse_port_schemas_at(bytes: Seq<u8>, pos: int, count: nat) -> Option<
    (Seq<(PortHandle, SchemaView)>, int),
>
    decreases count,
{
    if count == 0 {
        Some((Seq::empty(), pos))
    } else {
        match parse_port_schemas_at(bytes, pos, (count - 1) as nat) {
            None => None,
            Some((front, mid)) => match parse_port_schema_at(bytes, mid) {
                None => None,
                Some((entry, next)) => Some((front.push(entry), next)),
            },
        }
    }
}

/// The schemas of a node that `bytes` is the stored form of, if it is one.
pub open spec fn parse_node_schemas(bytes: Seq<u8>) -> Option<NodeSchemasView> {
    match parse_be_at(bytes, 0, 8) {
        None => None,
        Some((inputs, at_inputs)) => match parse_port_schemas_at(bytes, at_inputs, inputs) {
            None => None,
            Some((input_schemas, at_count)) => match parse_be_at(bytes, at_count, 8) {
                None => None,
                Some((outputs, at_outputs)) => match parse_port_schemas_at(bytes, at_outputs, outputs) {
                    None => None,
                    Some((output_schemas, end)) => if end == bytes.len() {
                        Some(NodeSchemasView { input_schemas, output_schemas })
                    } else {
                        None
                    },
                },
            },
        },
    }
}

/// The schema is read back from its stored form, and the stored form fits
/// the eight bytes that give its length.
#[verifier::opaque]
pub open spec fn schema_readable(schema: SchemaView) -> bool {
    &&& parse_schema(serialized_schema(schema)) == Some(schema)
    &&& serialized_schema(schema).len() < pow256(8)
}

/// Every schema of the list is read back from its stored form, and the
/// list fits the eight bytes that give its length.
pub open spec fn port_schemas_storable(entries: Seq<(PortHandle, SchemaView)>) -> bool {
    &&& entries.len() < pow256(8)
    &&& forall|i: int| 0 <= i < entries.len() ==> schema_readable((#[trigger] entries[i]).1)
}

proof fn lemma_parse_port_schema_of_encoding(bytes: Seq<u8>, pos: int, entry: (PortHandle, SchemaView))
    requires
        schema_readable(entry.1),
        holds_at(bytes, pos, serialized_port_schema(entry)),
    ensures
        parse_port_schema_at(bytes, pos) == Some((entry, pos + serialized_port_schema(entry).len())),
{
    reveal(schema_readable);
    lemma_pow256_values();
    lemma_be_bytes_len(entry.0 as nat, 2);
    lemma_be_bytes_len(serialized_schema(entry.1).len(), 8);
    lemma_holds_at_split(bytes, pos, be_bytes(entry.0 as nat, 2), length_prefixed(serialized_schema(entry.1)));
    lemma_parse_be_of_encoding(bytes, pos, entry.0 as nat, 2);
    lemma_parse_bytes_of_encoding(bytes, pos + 2, serialized_schema(entry.1));
}

proof fn lemma_parse_port_schemas_of_encoding(bytes: Seq<u8>, pos: int, entries: Seq<(PortHandle, SchemaView)>)
    requires
        port_schemas_storable(entries),
        holds_at(bytes, pos, serialized_port_schemas(entries)),
    ensures
        parse_port_schemas_at(bytes, pos, entries.len()) == Some(
            (entries, pos + serialized_port_schemas(entries).len()),
        ),
    decreases entries.len(),
{
    if entries.len() == 0 {
        assert(entries =~= Seq::empty());
    } else {
        let front = entries.drop_last();
        lemma_holds_at_split(bytes, pos, serialized_port_schemas(front), serialized_port_schema(entries.last()));
        assert forall|i: int| 0 <= i < front.len() implies schema_readable((#[trigger] front[i]).1) by {
            assert(front[i] == entries[i]);
        }
        lemma_parse_port_schemas_of_encoding(bytes, pos, front);
        assert(entries.last() == entries[entries.len() - 1]);
        lemma_parse_port_schema_of_encoding(bytes, pos + serialized_port_schemas(front).len(), entries.last());
        assert(front.push(entries.last()) =~= entries);
    }
}

/// Round trip: reading the stored form of the schemas of a node gives them back.
pub proof fn lemma_parse_serialized_node_schemas(schemas: NodeSchemasView)
    requires
        port_schemas_storable(schemas.input_schemas),
        port_schemas_storable(schemas.output_schemas),
    ensures
        parse_node_schemas(serialized_node_schemas(schemas)) == Some(schemas),
{
    let bytes = serialized_node_schemas(schemas);
    let a = be_bytes(schemas.input_schemas.len(), 8);
    let b = serialized_port_schemas(schemas.input_schemas);
    let c = be_bytes(schemas.output_schemas.len(), 8);
    let d = serialized_port_schemas(schemas.output_schemas);
    lemma_pow256_values();
    lemma_be_bytes_len(schemas.input_schemas.len(), 8);
    lemma_be_bytes_len(schemas.output_schemas.len(), 8);
    assert(bytes.subrange(0, bytes.len() as int) =~= bytes);
    assert(holds_at(bytes, 0, ((a + b) + c) + d));
    lemma_holds_at_split(bytes, 0, (a + b) + c, d);
    lemma_holds_at_split(bytes, 0, a + b, c);
    lemma_holds_at_split(bytes, 0, a, b);
    lemma_parse_be_of_encoding(bytes, 0, schemas.input_schemas.len(), 8);
    lemma_parse_port_schemas_of_encoding(bytes, 8, schemas.input_schemas);
    lemma_parse_be_of_encoding(bytes, (8 + b.len()) as int, schemas.output_schemas.len(), 8);
    lemma_parse_port_schemas_of_encoding(bytes, (8 + b.len() + 8) as int, schemas.output_schemas);
}

/// Appends the stored forms of the schemas of `ports` to `out`.
fn serialize_port_schemas(ports: &Vec<PortSchema>, out: &mut Vec<u8>)
    ensures
        final(out)@ == old(out)@ + serialized_port_schemas(port_schema_views(ports@)),
        port_schemas_storable(port_schema_views(ports@)),
{
    let ghost start = out@;
    let ghost entries = port_schema_views(ports@);
    let count = ports.len();
    let mut i: usize = 0;
    proof {
        lemma_pow256_values();
        assert(entries.subrange(0, 0) =~= Seq::<(PortHandle, SchemaView)>::empty());
        assert(start + Seq::<u8>::empty() =~= start);
    }
    while i < ports.len()
        invariant
            i <= ports@.len(),
            entries == port_schema_views(ports@),
            out@ == start + serialized_port_schemas(entries.subrange(0, i as int)),
            forall|k: int| 0 <= k < i ==> schema_readable((#[trigger] entries[k]).1),
        decreases ports@.len() - i,
    {
        let ghost before = out@;
        push_be(out, ports[i].port as u128, 2);
        let stored = serialize_schema(&ports[i].schema);
        push_length_prefixed(out, stored.as_slice());
        proof {
            let next = entries.subrange(0, i + 1);
            assert(next.drop_last() =~= entries.subrange(0, i as int));
            assert(next.last() == entries[i as int]);
            assert(out@ =~= before + serialized_port_schema(entries[i as int]));
            assert(out@ =~= start + serialized_port_schemas(next));
            assert(schema_readable(entries[i as int].1)) by {
                reveal(schema_readable);
            }
        }
        i = i + 1;
    }
    proof {
        assert(entries.subrange(0, i as int) =~= entries);
    }
}

/// The stored form of the schemas of a node.
pub fn serialize_node_schemas(schemas: &NodeSchemas) -> (bytes: Vec<u8>)
    ensures
        bytes@ == serialized_node_schemas(schemas@),
        parse_node_schemas(bytes@) == Some(schemas@),
{
    let mut bytes: Vec<u8> = Vec::new();
    push_be(&mut bytes, schemas.input_schemas.len() as u128, 8);
    serialize_port_schemas(&schemas.input_schemas, &mut bytes);
    push_be(&mut bytes, schemas.output_schemas.len() as u128, 8);
    serialize_port_schemas(&schemas.output_schemas, &mut bytes);
    proof {
        assert(bytes@ =~= serialized_node_schemas(schemas@));
        lemma_parse_serialized_node_schemas(schemas@);
    }
    bytes
}

proof fn lemma_parse_port_schemas_fails(bytes: Seq<u8>, pos: int, failing: nat, count: nat)
    requires
        failing <= count,
        parse_port_schemas_at(bytes, pos, failing) is None,
    ensures
        parse_port_schemas_at(bytes, pos, count) is None,
    decreases count,
{
    if failing < count {
        lemma_parse_port_schemas_fails(bytes, pos, failing, (count - 1) as nat);
    }
}

/// Reads `count` stored schemas of ports from `pos` on.
fn read_port_schemas(bytes: &[u8], pos: usize, count: u128) -> (found: Option<(Vec<PortSchema>, usize)>)
    requires
        pos <= bytes@.len(),
    ensures
        match parse_port_schemas_at(bytes@, pos as int, count as nat) {
            Some((entries, next)) => found matches Some((v, n)) && port_schema_views(v@) == entries && n == next && n
                <= bytes@.len(),
            None => found is None,
        },
{
    let mut entries: Vec<PortSchema> = Vec::new();
    let total = bytes.len();
    let mut at: usize = pos;
    let mut i: u128 = 0;
    proof {
        assert(port_schema_views(entries@) =~= Seq::<(PortHandle, SchemaView)>::empty());
    }
    while i < count
        invariant
            i <= count,
            total == bytes@.len(),
            at <= bytes@.len(),
            parse_port_schemas_at(bytes@, pos as int, i as nat) == Some((port_schema_views(entries@), at as int)),
        decreases count - i,
    {
        let entry = match read_be(bytes, at, 2) {
            None => None,
            Some(port) => {
                proof {
                    lemma_pow256_values();
                    lemma_be_bytes_of_value(bytes@.subrange(at as int, at + 2));
                }
                match read_bytes(bytes, at + 2) {
                    None => None,
                    Some((raw, next)) => match deserialize_schema(raw.as_slice()) {
                        None => None,
                        Some(schema) => Some((PortSchema { port: port as u16, schema }, next)),
                    },
                }
            },
        };
        match entry {
            None => {
                proof {
                    assert(parse_port_schemas_at(bytes@, pos as int, (i + 1) as nat) is None);
                    lemma_parse_port_schemas_fails(bytes@, pos as int, (i + 1) as nat, count as nat);
                }
                return None;
            },
            Some((entry, next)) => {
                proof {
                    assert(port_schema_views(entries@.push(entry)) =~= port_schema_views(entries@).push(
                        (entry.port, entry.schema@),
                    ));
                }
                entries.push(entry);
                at = next;
                i = i + 1;
            },
        }
    }
    Some((entries, at))
}

/// The schemas of a node that `bytes` is the stored form of, or `None`
/// where it is none.
pub fn deserialize_node_schemas(bytes: &[u8]) -> (found: Option<NodeSchemas>)
    ensures
        match parse_node_schemas(bytes@) {
            Some(schemas) => found matches Some(s) && s@ == schemas,
            None => found is None,
        },
{
    let total = bytes.len();
    let inputs = match read_be(bytes, 0, 8) {
        None => {
            return None;
        },
        Some(inputs) => inputs,
    };
    let (input_schemas, at_count) = match read_port_schemas(bytes, 8, inputs) {
        None => {
            return None;
        },
        Some(found) => found,
    };
    let outputs = match read_be(bytes, at_count, 8) {
        None => {
            return None;
        },
        Some(outputs) => outputs,
    };
    let (output_schemas, end) = match read_port_schemas(bytes, at_count + 8, outputs) {
        None => {
            return None;
        },
        Some(found) => found,
    };
    if end != total {
        return None;
    }
    Some(NodeSchemas { input_schemas, output_schemas })
}

} // verus!
