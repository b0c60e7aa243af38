use dozer::checkpoint::{init_metadata, read_commit, read_commits, read_metadata, source_key, store_commit};
use dozer::dag_metadata::{get_checkpoint_consistency, resolve_startup, DagMetadata};
use dozer::dag_schemas::{NodeSchemas, PortSchema};
use dozer::epoch::Epoch;
use dozer::errors::StorageError;
use dozer::node::NodeHandle;
use dozer::record_store::{AutogenRowKeyLookupRecordWriter, RecordWriter};
use dozer::schema_codec::{deserialize_node_schemas, deserialize_schema, serialize_node_schemas, serialize_schema};
use dozer::storage::{Database, Transaction};
use dozer::test_utils::{schema_0, schema_1, schema_empty_primary_index, schema_multi_indices};
use dozer::types::{Field, FieldDefinition, FieldType, Operation, Record, Schema, SchemaIdentifier};

fn handle(id: &str) -> NodeHandle {
    NodeHandle::new(None, id.to_string())
}

fn store() -> (Transaction, Database) {
    let mut tx = Transaction::new();
    let meta_db = tx.open_database(false);
    (tx, meta_db)
}

#[test]
fn keys_of_sources() {
    assert_eq!(source_key(&handle("ab")), vec![1u8, 0, b'a', b'b']);
    assert_eq!(source_key(&NodeHandle::new(Some(0x0102), "a".to_string())), vec![1u8, 1, 1, 2, b'a']);
    assert_eq!(source_key(&handle("")), vec![1u8, 0]);
}

#[test]
fn committed_positions_are_read_back() {
    let (mut tx, meta_db) = store();
    assert_eq!(read_commit(&tx, meta_db, &handle("a")), Ok(None));
    let epoch = Epoch::new(0, vec![(handle("a"), (1, 10)), (handle("b"), (2, 20))]);
    assert_eq!(store_commit(&mut tx, meta_db, &epoch), Ok(()));
    assert_eq!(read_commit(&tx, meta_db, &handle("a")), Ok(Some((1, 10))));
    assert_eq!(read_commit(&tx, meta_db, &handle("b")), Ok(Some((2, 20))));
    assert_eq!(read_commit(&tx, meta_db, &handle("c")), Ok(None));
    assert_eq!(
        tx.get(meta_db, &source_key(&handle("a"))),
        Ok(Some(vec![0u8, 0, 0, 0, 0, 0, 0, 1, 0, 0, 0, 0, 0, 0, 0, 10]))
    );
    // the position only moves with the next commit
    let next = Epoch::new(1, vec![(handle("a"), (1, 15)), (handle("a"), (1, 17))]);
    store_commit(&mut tx, meta_db, &next).unwrap();
    assert_eq!(read_commit(&tx, meta_db, &handle("a")), Ok(Some((1, 17))));
    assert_eq!(read_commit(&tx, meta_db, &handle("b")), Ok(Some((2, 20))));
    assert_eq!(
        read_commits(&tx, meta_db, &vec![handle("b"), handle("c"), handle("a")]),
        Ok(vec![(handle("b"), (2, 20)), (handle("a"), (1, 17))])
    );
}

#[test]
fn a_note_that_cannot_be_read() {
    let (mut tx, meta_db) = store();
    tx.put(meta_db, &source_key(&handle("a")), &[1, 2, 3]).unwrap();
    for result in [
        read_commit(&tx, meta_db, &handle("a")).map(|_| ()),
        read_commits(&tx, meta_db, &vec![handle("b"), handle("a")]).map(|_| ()),
    ] {
        match result {
            Err(StorageError::DeserializationError { typ, .. }) => assert_eq!(typ, "Watermark"),
            other => panic!("unexpected {:?}", other),
        }
    }
}

#[test]
fn notes_and_row_counter_share_a_database() {
    let mut tx = Transaction::new();
    let db = tx.open_database(false);
    let meta_db = tx.open_database(false);
    let schema = AutogenRowKeyLookupRecordWriter::prepare_schema(Schema::empty());
    let mut writer = AutogenRowKeyLookupRecordWriter::new(db, meta_db, schema);
    writer.write(Operation::Insert { new: Record::new(None, vec![], None) }, &mut tx).unwrap();
    store_commit(&mut tx, meta_db, &Epoch::new(0, vec![(handle(""), (5, 6))])).unwrap();
    let second = writer.write(Operation::Insert { new: Record::new(None, vec![], None) }, &mut tx).unwrap();
    assert_eq!(second, Operation::Insert { new: Record::new(None, vec![Field::UInt(2)], None) });
    assert_eq!(read_commit(&tx, meta_db, &handle("")), Ok(Some((5, 6))));
}

fn every_schema() -> Vec<Schema> {
    vec![
        schema_0().0,
        schema_1().0,
        schema_empty_primary_index().0,
        schema_multi_indices().0,
        Schema::empty(),
        Schema {
            identifier: Some(SchemaIdentifier { id: u32::MAX, version: u16::MAX }),
            fields: vec![
                FieldDefinition::new("uint".to_string(), FieldType::UInt, false),
                FieldDefinition::new("int".to_string(), FieldType::Int, true),
                FieldDefinition::new("float".to_string(), FieldType::Float, false),
                FieldDefinition::new("boolean".to_string(), FieldType::Boolean, true),
                FieldDefinition::new("string".to_string(), FieldType::String, false),
                FieldDefinition::new("text".to_string(), FieldType::Text, true),
                FieldDefinition::new("binary".to_string(), FieldType::Binary, false),
                FieldDefinition::new("decimal".to_string(), FieldType::Decimal, true),
                FieldDefinition::new("timestamp".to_string(), FieldType::Timestamp, false),
                FieldDefinition::new("date".to_string(), FieldType::Date, true),
                FieldDefinition::new("bson ünïcode".to_string(), FieldType::Bson, false),
            ],
            primary_index: vec![4, 0, 10],
        },
    ]
}

#[test]
fn schema_round_trip() {
    for schema in every_schema() {
        let bytes = serialize_schema(&schema);
        assert_eq!(deserialize_schema(&bytes), Some(schema));
    }
}

#[test]
fn stored_form_of_a_schema_is_exact() {
    assert_eq!(
        serialize_schema(&schema_0().0),
        vec![
            1u8, 0, 0, 0, 0, 0, 1, // identifier
            0, 0, 0, 0, 0, 0, 0, 1, // one column
            0, 0, 0, 0, 0, 0, 0, 3, b'f', b'o', b'o', 4, 1, // foo, a string, nullable
            0, 0, 0, 0, 0, 0, 0, 1, // one key column
            0, 0, 0, 0, 0, 0, 0, 0, // the first one
        ]
    );
}

#[test]
fn malformed_bytes_are_not_a_schema() {
    let bytes = serialize_schema(&schema_1().0);
    for cut in 0..bytes.len() {
        assert_eq!(deserialize_schema(&bytes[..cut]), None, "prefix of {} bytes", cut);
    }
    let mut longer = bytes.clone();
    longer.push(0);
    assert_eq!(deserialize_schema(&longer), None);
    // a type mark that marks nothing, and a nullable byte that is neither 0 nor 1
    let stored = serialize_schema(&schema_0().0);
    let mut unknown = stored.clone();
    unknown[26] = 11;
    assert_eq!(deserialize_schema(&unknown), None);
    let mut flag = stored.clone();
    flag[27] = 2;
    assert_eq!(deserialize_schema(&flag), None);
}

fn node_schemas() -> NodeSchemas {
    NodeSchemas::from(
        vec![PortSchema::new(1, schema_0().0), PortSchema::new(2, schema_1().0)],
        vec![PortSchema::new(0xffff, schema_multi_indices().0)],
    )
}

#[test]
fn node_schemas_round_trip() {
    for schemas in [node_schemas(), NodeSchemas::new()] {
        let bytes = serialize_node_schemas(&schemas);
        assert_eq!(deserialize_node_schemas(&bytes), Some(schemas));
    }
    assert_eq!(serialize_node_schemas(&NodeSchemas::new()), vec![0u8; 16]);
    let bytes = serialize_node_schemas(&node_schemas());
    for cut in 0..bytes.len() {
        assert_eq!(deserialize_node_schemas(&bytes[..cut]), None, "prefix of {} bytes", cut);
    }
}

#[test]
fn metadata_is_kept_and_written_anew() {
    let (mut tx, meta_db) = store();
    let sources = vec![handle("s1"), handle("s2")];
    // a node that has not run before keeps nothing
    assert_eq!(read_metadata(&tx, meta_db, &sources), Ok(None));
    init_metadata(&mut tx, meta_db, &sources, &node_schemas()).unwrap();
    store_commit(&mut tx, meta_db, &Epoch::new(0, vec![(handle("s1"), (1, 10)), (handle("s2"), (1, 4))])).unwrap();
    let kept = read_metadata(&tx, meta_db, &sources).unwrap().unwrap();
    assert_eq!(
        kept,
        DagMetadata {
            commits: vec![(handle("s1"), (1, 10)), (handle("s2"), (1, 4))],
            input_schemas: node_schemas().input_schemas,
            output_schemas: node_schemas().output_schemas,
        }
    );
    // with what was kept the pipeline goes on where it was
    let all = vec![(handle("node"), kept)];
    let current = vec![(handle("node"), node_schemas())];
    let chk = get_checkpoint_consistency(&sources, &all);
    let startup = resolve_startup(&sources, &chk, &current, Some(&all));
    assert!(!startup.reinitialize);
    assert_eq!(startup.consistency_metadata, vec![(handle("s1"), (1, 10)), (handle("s2"), (1, 4))]);
    // with other schemas everything kept is discarded: the positions are gone
    let changed = vec![(handle("node"), NodeSchemas::new())];
    let startup = resolve_startup(&sources, &chk, &changed, Some(&all));
    assert!(startup.reinitialize);
    init_metadata(&mut tx, meta_db, &sources, &changed[0].1).unwrap();
    assert_eq!(
        read_metadata(&tx, meta_db, &sources),
        Ok(Some(DagMetadata { commits: vec![], input_schemas: vec![], output_schemas: vec![] }))
    );
    assert_eq!(read_commit(&tx, meta_db, &handle("s1")), Ok(None));
}

#[test]
fn schemas_that_cannot_be_read() {
    let (mut tx, meta_db) = store();
    tx.put(meta_db, &[2], &[9, 9, 9]).unwrap();
    match read_metadata(&tx, meta_db, &vec![]) {
        Err(StorageError::DeserializationError { typ, .. }) => assert_eq!(typ, "NodeSchemas"),
        other => panic!("unexpected {:?}", other),
    }
}
