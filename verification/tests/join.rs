use dozer::errors::{ExecutionError, StorageError, TypeError};
use dozer::join::{
    get_composite_key, get_lookup_key, join_records, JoinExecutor, JoinOperator, JoinOperatorType, JoinTable,
    REVERSE_JOIN_FLAG,
};
use dozer::record_store::{PrimaryKeyLookupRecordWriter, RecordReader, RecordWriter};
use dozer::storage::{Database, Transaction};
use dozer::types::{Field, FieldDefinition, FieldType, Operation, Record, Schema};
use std::collections::HashMap;

const LEFT: u16 = 1;
const RIGHT: u16 = 2;

fn schema() -> Schema {
    Schema {
        identifier: None,
        fields: vec![
            FieldDefinition::new("k".to_string(), FieldType::Int, false),
            FieldDefinition::new("v".to_string(), FieldType::String, false),
        ],
        primary_index: vec![0],
    }
}

fn row(k: i64, v: &str) -> Record {
    Record::new(None, vec![Field::Int(k), Field::String(v.to_string())], None)
}

fn joined(left: (i64, &str), right: (i64, &str)) -> Record {
    Record::new(
        None,
        vec![
            Field::Int(left.0),
            Field::String(left.1.to_string()),
            Field::Int(right.0),
            Field::String(right.1.to_string()),
        ],
        None,
    )
}

struct Join {
    operator: JoinOperator,
    left_store: Transaction,
    right_store: Transaction,
    store_db: Database,
    index: Transaction,
    index_db: Database,
}

impl Join {
    fn new() -> Join {
        let mut left_store = Transaction::new();
        let store_db = left_store.open_database(false);
        let mut right_store = Transaction::new();
        right_store.open_database(false);
        let mut index = Transaction::new();
        let index_db = index.open_database(true);
        Join {
            operator: JoinOperator::new(JoinOperatorType::Inner, RIGHT, vec![0], LEFT, vec![0]),
            left_store,
            right_store,
            store_db,
            index,
            index_db,
        }
    }

    fn writer(&self) -> PrimaryKeyLookupRecordWriter {
        PrimaryKeyLookupRecordWriter::new(self.store_db, self.store_db, schema(), false, false)
    }

    /// A row arrives on the left: it is kept and indexed and joined with the right rows.
    fn insert_left(&mut self, record: Record) -> Vec<Record> {
        self.writer().write(Operation::Insert { new: record.clone() }, &mut self.left_store).unwrap();
        let key = self.operator.get_left_record_join_key(&record).unwrap();
        let pk = get_lookup_key(&record, &schema()).unwrap();
        self.operator.insert_left_index(&key, &pk, &self.index_db, &mut self.index).unwrap();
        let mut readers = HashMap::new();
        readers.insert(RIGHT, RecordReader::new(&self.right_store, self.store_db));
        self.operator
            .execute_right(vec![record], &key, &self.index_db, &self.index, &readers, &HashMap::new())
            .unwrap()
    }

    /// A row arrives on the right: it is kept and indexed and joined with the left rows.
    fn insert_right(&mut self, record: Record) -> Vec<Record> {
        self.writer().write(Operation::Insert { new: record.clone() }, &mut self.right_store).unwrap();
        let key = self.operator.get_right_record_join_key(&record).unwrap();
        let pk = get_lookup_key(&record, &schema()).unwrap();
        self.operator.insert_right_index(&key, &pk, &self.index_db, &mut self.index).unwrap();
        let mut readers = HashMap::new();
        readers.insert(LEFT, RecordReader::new(&self.left_store, self.store_db));
        self.operator
            .execute_left(vec![record], &key, &self.index_db, &self.index, &readers, &HashMap::new())
            .unwrap()
    }

    fn delete_right(&mut self, record: Record) {
        self.writer().write(Operation::Delete { old: record.clone() }, &mut self.right_store).unwrap();
        let key = self.operator.get_right_record_join_key(&record).unwrap();
        let pk = get_lookup_key(&record, &schema()).unwrap();
        self.operator.delete_right_index(&key, &pk, &self.index_db, &mut self.index).unwrap();
    }

    fn delete_left(&mut self, record: Record) {
        self.writer().write(Operation::Delete { old: record.clone() }, &mut self.left_store).unwrap();
        let key = self.operator.get_left_record_join_key(&record).unwrap();
        let pk = get_lookup_key(&record, &schema()).unwrap();
        self.operator.delete_left_index(&key, &pk, &self.index_db, &mut self.index).unwrap();
    }
}

#[test]
fn join_left_then_right() {
    let mut join = Join::new();
    assert_eq!(join.insert_left(row(1, "a")), vec![]);
    assert_eq!(join.insert_right(row(1, "b")), vec![joined((1, "a"), (1, "b"))]);
}

#[test]
fn join_right_then_left() {
    let mut join = Join::new();
    assert_eq!(join.insert_right(row(1, "b")), vec![]);
    assert_eq!(join.insert_left(row(1, "a")), vec![joined((1, "a"), (1, "b"))]);
}

#[test]
fn delete_removes_future_matches_of_its_key_only() {
    let mut join = Join::new();
    join.insert_right(row(1, "b"));
    join.insert_right(row(2, "c"));
    assert_eq!(join.insert_left(row(1, "a")), vec![joined((1, "a"), (1, "b"))]);
    join.delete_right(row(1, "b"));
    assert_eq!(join.insert_left(row(1, "a2")), vec![]);
    assert_eq!(join.insert_left(row(2, "d")), vec![joined((2, "d"), (2, "c"))]);
    join.delete_left(row(2, "d"));
    assert_eq!(join.insert_right(row(2, "c")), vec![]);
}

#[test]
fn zero_matches_give_zero_rows() {
    let mut join = Join::new();
    join.insert_right(row(5, "x"));
    assert_eq!(join.insert_left(row(6, "y")), vec![]);
}

#[test]
fn join_keys_are_not_unique() {
    let mut join = Join::new();
    let operator = JoinOperator::new(JoinOperatorType::Inner, RIGHT, vec![1], LEFT, vec![1]);
    join.operator = operator;
    join.insert_right(row(1, "same"));
    join.insert_right(row(2, "same"));
    join.insert_right(row(3, "other"));
    assert_eq!(
        join.insert_left(row(9, "same")),
        vec![joined((9, "same"), (1, "same")), joined((9, "same"), (2, "same"))]
    );
    let keys = join
        .operator
        .get_right_join_keys(&Field::String("same".to_string()).encode(), &join.index_db, &join.index)
        .unwrap();
    assert_eq!(keys, vec![Field::Int(1).encode(), Field::Int(2).encode()]);
    let none = join
        .operator
        .get_left_join_keys(&Field::String("other".to_string()).encode(), &join.index_db, &join.index)
        .unwrap();
    assert_eq!(none, Vec::<Vec<u8>>::new());
}

#[test]
fn sides_are_kept_apart_in_one_database() {
    let mut join = Join::new();
    // the same port number on both sides
    join.operator = JoinOperator::new(JoinOperatorType::Inner, 4, vec![0], 4, vec![0]);
    let key = Field::Int(1).encode();
    join.operator.insert_left_index(&key, b"left", &join.index_db, &mut join.index).unwrap();
    join.operator.insert_right_index(&key, b"right", &join.index_db, &mut join.index).unwrap();
    assert_eq!(join.operator.get_left_join_keys(&key, &join.index_db, &join.index), Ok(vec![b"left".to_vec()]));
    assert_eq!(join.operator.get_right_join_keys(&key, &join.index_db, &join.index), Ok(vec![b"right".to_vec()]));
    let mut full = (4u32 | REVERSE_JOIN_FLAG).to_be_bytes().to_vec();
    full.extend(&key);
    assert_eq!(join.index.get(join.index_db, &full), Ok(Some(b"right".to_vec())));
    assert_eq!(join.operator.left_prefix, 4);
}

#[test]
fn missing_reader_is_an_invalid_port() {
    let join = Join::new();
    let readers = HashMap::new();
    assert_eq!(
        join.operator.execute_right(vec![row(1, "a")], b"k", &join.index_db, &join.index, &readers, &HashMap::new()),
        Err(ExecutionError::InvalidPortHandle(RIGHT))
    );
    assert_eq!(
        join.operator.execute_left(vec![row(1, "a")], b"k", &join.index_db, &join.index, &readers, &HashMap::new()),
        Err(ExecutionError::InvalidPortHandle(LEFT))
    );
}

#[test]
fn unreadable_row_fails_the_probe() {
    let mut join = Join::new();
    let key = Field::Int(1).encode();
    join.right_store.put(join.store_db, &key, &[9, 9]).unwrap();
    join.operator.insert_right_index(&key, &key, &join.index_db, &mut join.index).unwrap();
    let mut readers = HashMap::new();
    readers.insert(RIGHT, RecordReader::new(&join.right_store, join.store_db));
    match join.operator.execute_right(vec![row(1, "a")], &key, &join.index_db, &join.index, &readers, &HashMap::new())
    {
        Err(ExecutionError::InternalDatabaseError(StorageError::SerializationError { typ, .. })) => {
            assert_eq!(typ, "Record")
        }
        other => panic!("unexpected {:?}", other),
    }
}

#[test]
fn index_on_an_unknown_database() {
    let mut join = Join::new();
    let nowhere = Database { id: 5 };
    let error = Err(ExecutionError::InternalDatabaseError(StorageError::InvalidDatabase));
    assert_eq!(join.operator.insert_left_index(b"k", b"v", &nowhere, &mut join.index), error);
    assert_eq!(join.operator.delete_right_index(b"k", b"v", &nowhere, &mut join.index), error);
    assert_eq!(
        join.operator.get_left_join_keys(b"k", &nowhere, &join.index),
        Err(ExecutionError::InternalDatabaseError(StorageError::InvalidDatabase))
    );
}

#[test]
fn composite_key_of_a_record() {
    let record = row(1, "a");
    assert_eq!(
        get_composite_key(&record, &[1, 0]),
        Ok(vec![4u8, b'a', 1, 0, 0, 0, 0, 0, 0, 0, 1])
    );
    assert_eq!(get_composite_key(&record, &[]), Ok(vec![]));
    assert_eq!(get_composite_key(&record, &[0, 2, 3]), Err(TypeError::InvalidFieldIndex(2)));
    assert_eq!(get_lookup_key(&record, &schema()), Ok(Field::Int(1).encode()));
    let mut wide = schema();
    wide.primary_index = vec![7];
    assert_eq!(get_lookup_key(&record, &wide), Err(TypeError::InvalidFieldIndex(7)));
}

#[test]
fn join_records_moves_the_right_values() {
    let mut left = Record::new(None, vec![Field::Int(1)], Some(4));
    let mut right = Record::new(None, vec![Field::Int(2), Field::Null], None);
    let row = join_records(&mut left, &mut right);
    assert_eq!(row, Record::new(None, vec![Field::Int(1), Field::Int(2), Field::Null], None));
    assert_eq!(left, Record::new(None, vec![Field::Int(1), Field::Int(2), Field::Null], Some(4)));
    assert_eq!(right, Record::new(None, vec![], None));
}

#[test]
fn join_table_starts_unjoined() {
    let table = JoinTable::from("user".to_string(), &schema());
    assert_eq!(table.name, "user");
    assert_eq!(table.schema, schema());
    assert!(table.left.is_none() && table.right.is_none());
    let operator = JoinOperator::new(JoinOperatorType::Inner, RIGHT, vec![0], LEFT, vec![1]);
    assert_eq!(operator.clone(), operator);
}
