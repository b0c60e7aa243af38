//! Runs lists of changes of the table `actor` through the store of a port and
//! reads the table back in the order of its key.

use dozer::node::OutputPortType;
use dozer::record_store::{RecordWriter, RecordWriterUtils};
use dozer::codec::deserialize_record;
use dozer::storage::{Database, Transaction};
use dozer::types::{Field, FieldDefinition, FieldType, Operation, Record, Schema};

/// The table of the statement
/// `CREATE TABLE actor(actor_id integer NOT NULL, first_name text NOT NULL, last_name text, last_update text)`.
fn actor_schema() -> Schema {
    Schema {
        identifier: None,
        fields: vec![
            FieldDefinition::new("actor_id".to_string(), FieldType::Int, false),
            FieldDefinition::new("first_name".to_string(), FieldType::String, false),
            FieldDefinition::new("last_name".to_string(), FieldType::String, true),
            FieldDefinition::new("last_update".to_string(), FieldType::String, true),
        ],
        primary_index: vec![0],
    }
}

fn text_or_null(value: Option<&str>) -> Field {
    match value {
        Some(text) => Field::String(text.to_string()),
        None => Field::Null,
    }
}

fn actor(actor_id: i64, first_name: &str, last_name: Option<&str>, last_update: Option<&str>) -> Record {
    Record::new(
        None,
        vec![
            Field::Int(actor_id),
            Field::String(first_name.to_string()),
            text_or_null(last_name),
            text_or_null(last_update),
        ],
        None,
    )
}

/// The row of which only the key is known.
fn actor_key(actor_id: i64) -> Record {
    Record::new(None, vec![Field::Int(actor_id), Field::Null, Field::Null, Field::Null], None)
}

/// Applies the changes to an empty table and returns what
/// `select actor_id, first_name, last_name,last_update from actor order by actor_id`
/// gives afterwards.
fn run_changes(list: Vec<(String, String, Operation)>) -> Vec<Record> {
    let mut tx = Transaction::new();
    let db: Database = tx.open_database(false);
    let meta_db: Database = tx.open_database(false);
    let mut writer = RecordWriterUtils::create_writer(
        OutputPortType::StatefulWithPrimaryKeyLookup {
            retr_old_records_for_deletes: true,
            retr_old_records_for_updates: true,
        },
        db,
        meta_db,
        actor_schema(),
    )
    .unwrap();
    for (table, _statement, operation) in list {
        assert_eq!(table, "actor");
        writer.write(operation, &mut tx).unwrap();
    }
    let mut rows = vec![];
    let mut cursor = tx.open_cursor(db).unwrap();
    while let Some((_key, value)) = tx.read(&cursor) {
        rows.push(deserialize_record(&value).unwrap());
        if !tx.next(&mut cursor) {
            break;
        }
    }
    rows
}

#[test]
fn nightly_long_nullable_queries() {
    let list = vec![
        (
            "actor".to_string(),
            "INSERT INTO actor(actor_id,first_name) values (1, 'mario')".to_string(),
            Operation::Insert { new: actor(1, "mario", None, None) },
        ),
        (
            "actor".to_string(),
            "INSERT INTO actor(actor_id,first_name, last_name, last_update) values (2, 'dario', null, null)"
                .to_string(),
            Operation::Insert { new: actor(2, "dario", None, None) },
        ),
        (
            "actor".to_string(),
            "INSERT INTO actor(actor_id,first_name, last_name, last_update) values (3, 'luigi', null, null)"
                .to_string(),
            Operation::Insert { new: actor(3, "luigi", None, None) },
        ),
    ];
    let rows = run_changes(list);
    assert_eq!(
        rows,
        vec![actor(1, "mario", None, None), actor(2, "dario", None, None), actor(3, "luigi", None, None)]
    );
}

#[test]
fn nightly_long_changes_queries() {
    let list = vec![
        (
            "actor".to_string(),
            "INSERT INTO actor(actor_id,first_name, last_name, last_update) values (2, 'dario', 'GUINESS','2020-02-15 09:34:33+00')".to_string(),
            Operation::Insert { new: actor(2, "dario", Some("GUINESS"), Some("2020-02-15 09:34:33+00")) },
        ),
        (
            "actor".to_string(),
            "INSERT INTO actor(actor_id,first_name, last_name, last_update) values (3, 'luigi', 'GUINESS','2020-02-15 09:34:33+00')".to_string(),
            Operation::Insert { new: actor(3, "luigi", Some("GUINESS"), Some("2020-02-15 09:34:33+00")) },
        ),
        (
            "actor".to_string(),
            "UPDATE actor SET first_name ='sampras' WHERE actor_id=2".to_string(),
            Operation::Update {
                old: actor_key(2),
                new: actor(2, "sampras", Some("GUINESS"), Some("2020-02-15 09:34:33+00")),
            },
        ),
        (
            "actor".to_string(),
            "DELETE FROM actor WHERE actor_id=2".to_string(),
            Operation::Delete { old: actor_key(2) },
        ),
    ];
    let rows = run_changes(list);
    assert_eq!(rows, vec![actor(3, "luigi", Some("GUINESS"), Some("2020-02-15 09:34:33+00"))]);
}
