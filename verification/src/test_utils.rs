//! Schemas with their secondary indexes, for trying out a store.

use crate::types::{text, FieldDefinition, FieldDefinitionView, FieldType, IndexDefinition, Schema, SchemaIdentifier, SchemaView};
use vstd::prelude::*;

verus! {

/// The columns of an index, as a mathematical value.
pub enum IndexDefinitionView {
    SortedInverted(Seq<usize>),
    FullText(usize),
}

impl View for IndexDefinition {
    type V = IndexDefinitionView;

    open spec fn view(&self) -> IndexDefinitionView {
        match self {
            IndexDefinition::SortedInverted(columns) => IndexDefinitionView::SortedInverted(columns@),
            IndexDefinition::FullText(column) => IndexDefinitionView::FullText(*column),
        }
    }
}

/// The views of a list of indexes.
pub open spec fn index_views(indexes: Seq<IndexDefinition>) -> Seq<IndexDefinitionView> {
    Seq::new(indexes.len(), |i: int| indexes[i]@)
}

/// A column of the given name, type and nullability.
pub open spec fn column(name: Seq<char>, typ: FieldType, nullable: bool) -> FieldDefinitionView {
    FieldDefinitionView { name, typ, nullable }
}

fn columns_of(a: usize) -> (columns: Vec<usize>)
    ensures
        columns@ == seq![a],
{
    let mut columns: Vec<usize> = Vec::new();
    columns.push(a);
    columns
}

/// One nullable string column `foo`, which is the key and has a sorted index.
pub fn schema_0() -> (r: (Schema, Vec<IndexDefinition>))
    ensures
        r.0@ == (SchemaView {
            identifier: Some(SchemaIdentifier { id: 0, version: 1 }),
            fields: seq![column("foo"@, FieldType::String, true)],
            primary_index: seq![0usize],
        }),
        index_views(r.1@) == seq![IndexDefinitionView::SortedInverted(seq![0usize])],
{
    let mut fields: Vec<FieldDefinition> = Vec::new();
    fields.push(FieldDefinition { name: text("foo"), typ: FieldType::String, nullable: true });
    let schema = Schema {
        identifier: Some(SchemaIdentifier { id: 0, version: 1 }),
        fields,
        primary_index: columns_of(0),
    };
    let mut indexes: Vec<IndexDefinition> = Vec::new();
    indexes.push(IndexDefinition::SortedInverted(columns_of(0)));
    proof {
        assert(schema@.fields =~= seq![column("foo"@, FieldType::String, true)]);
        assert(index_views(indexes@) =~= seq![IndexDefinitionView::SortedInverted(seq![0usize])]);
    }
    (schema, indexes)
}

/// Three nullable columns `a`, `b` and `c`; `a` is the key. A sorted index on
/// each column and one on `a` with `b`.
pub fn schema_1() -> (r: (Schema, Vec<IndexDefinition>))
    ensures
        r.0@ == (SchemaView {
            identifier: Some(SchemaIdentifier { id: 1, version: 1 }),
            fields: seq![
                column("a"@, FieldType::Int, true),
                column("b"@, FieldType::String, true),
                column("c"@, FieldType::Int, true),
            ],
            primary_index: seq![0usize],
        }),
        index_views(r.1@) == seq![
            IndexDefinitionView::SortedInverted(seq![0usize]),
            IndexDefinitionView::SortedInverted(seq![1usize]),
            IndexDefinitionView::SortedInverted(seq![2usize]),
            IndexDefinitionView::SortedInverted(seq![0usize, 1usize]),
        ],
{
    let mut fields: Vec<FieldDefinition> = Vec::new();
    fields.push(FieldDefinition { name: text("a"), typ: FieldType::Int, nullable: true });
    fields.push(FieldDefinition { name: text("b"), typ: FieldType::String, nullable: true });
    fields.push(FieldDefinition { name: text("c"), typ: FieldType::Int, nullable: true });
    let schema = Schema {
        identifier: Some(SchemaIdentifier { id: 1, version: 1 }),
        fields,
        primary_index: columns_of(0),
    };
    let mut composite: Vec<usize> = Vec::new();
    composite.push(0);
    composite.push(1);
    assert(composite@ =~= seq![0usize, 1usize]);
    let mut indexes: Vec<IndexDefinition> = Vec::new();
    indexes.push(IndexDefinition::SortedInverted(columns_of(0)));
    indexes.push(IndexDefinition::SortedInverted(columns_of(1)));
    indexes.push(IndexDefinition::SortedInverted(columns_of(2)));
    // composite index
    indexes.push(IndexDefinition::SortedInverted(composite));
    proof {
        assert(schema@.fields =~= seq![
            column("a"@, FieldType::Int, true),
            column("b"@, FieldType::String, true),
            column("c"@, FieldType::Int, true),
        ]);
        assert(index_views(indexes@) =~= seq![
            IndexDefinitionView::SortedInverted(seq![0usize]),
            IndexDefinitionView::SortedInverted(seq![1usize]),
            IndexDefinitionView::SortedInverted(seq![2usize]),
            IndexDefinitionView::SortedInverted(seq![0usize, 1usize]),
        ]);
    }
    (schema, indexes)
}

/// One string column `foo`, which is the key and has a full-text index.
pub fn schema_full_text_single() -> (r: (Schema, Vec<IndexDefinition>))
    ensures
        r.0@ == (SchemaView {
            identifier: Some(SchemaIdentifier { id: 2, version: 1 }),
            fields: seq![column("foo"@, FieldType::String, false)],
            primary_index: seq![0usize],
        }),
        index_views(r.1@) == seq![IndexDefinitionView::FullText(0)],
{
    let mut fields: Vec<FieldDefinition> = Vec::new();
    fields.push(FieldDefinition { name: text("foo"), typ: FieldType::String, nullable: false });
    let schema = Schema {
        identifier: Some(SchemaIdentifier { id: 2, version: 1 }),
        fields,
        primary_index: columns_of(0),
    };
    let mut indexes: Vec<IndexDefinition> = Vec::new();
    indexes.push(IndexDefinition::FullText(0));
    proof {
        assert(schema@.fields =~= seq![column("foo"@, FieldType::String, false)]);
        assert(index_views(indexes@) =~= seq![IndexDefinitionView::FullText(0)]);
    }
    (schema, indexes)
}

/// One string column `foo` and no key, as rows that are only ever added
/// have it. A sorted index on the column.
pub fn schema_empty_primary_index() -> (r: (Schema, Vec<IndexDefinition>))
    ensures
        r.0@ == (SchemaView {
            identifier: Some(SchemaIdentifier { id: 3, version: 1 }),
            fields: seq![column("foo"@, FieldType::String, false)],
            primary_index: Seq::empty(),
        }),
        index_views(r.1@) == seq![IndexDefinitionView::SortedInverted(seq![0usize])],
{
    let mut fields: Vec<FieldDefinition> = Vec::new();
    fields.push(FieldDefinition { name: text("foo"), typ: FieldType::String, nullable: false });
    let schema = Schema { identifier: Some(SchemaIdentifier { id: 3, version: 1 }), fields, primary_index: Vec::new() };
    let mut indexes: Vec<IndexDefinition> = Vec::new();
    indexes.push(IndexDefinition::SortedInverted(columns_of(0)));
    proof {
        assert(schema@.fields =~= seq![column("foo"@, FieldType::String, false)]);
        assert(index_views(indexes@) =~= seq![IndexDefinitionView::SortedInverted(seq![0usize])]);
    }
    (schema, indexes)
}

/// An integer column `id`, which is the key, and a string column `text`.
/// A sorted index on `id` and a full-text index on `text`.
pub fn schema_multi_indices() -> (r: (Schema, Vec<IndexDefinition>))
    ensures
        r.0@ == (SchemaView {
            identifier: Some(SchemaIdentifier { id: 4, version: 1 }),
            fields: seq![column("id"@, FieldType::Int, false), column("text"@, FieldType::String, false)],
            primary_index: seq![0usize],
        }),
        index_views(r.1@) == seq![
            IndexDefinitionView::SortedInverted(seq![0usize]),
            IndexDefinitionView::FullText(1),
        ],
{
    let mut fields: Vec<FieldDefinition> = Vec::new();
    fields.push(FieldDefinition { name: text("id"), typ: FieldType::Int, nullable: false });
    fields.push(FieldDefinition { name: text("text"), typ: FieldType::String, nullable: false });
    let schema = Schema {
        identifier: Some(SchemaIdentifier { id: 4, version: 1 }),
        fields,
        primary_index: columns_of(0),
    };
    let mut indexes: Vec<IndexDefinition> = Vec::new();
    indexes.push(IndexDefinition::SortedInverted(columns_of(0)));
    indexes.push(IndexDefinition::FullText(1));
    proof {
        assert(schema@.fields =~= seq![
            column("id"@, FieldType::Int, false),
            column("text"@, FieldType::String, false),
        ]);
        assert(index_views(indexes@) =~= seq![
            IndexDefinitionView::SortedInverted(seq![0usize]),
            IndexDefinitionView::FullText(1),
        ]);
    }
    (schema, indexes)
}

} // verus!
