//! The rows that an output port keeps: writers that apply change operations
//! to a database of a transaction, and a reader of what they wrote.
//!
//! A row is kept under its primary key, in the stored form of `codec`.

use crate::codec::{deserialize_record, parse_record, record_storable, serialize_record, serialized_record};
use crate::errors::{ExecutionError, StorageError};
use crate::node::OutputPortType;
use crate::storage::{unchanged_outside, Database, Transaction};
use crate::types::{
    composite_key, indexes_in_range, text, Field, FieldDefinition, FieldDefinitionView,
    FieldType, FieldValue, Operation, OperationView, Record, RecordView, Schema, SchemaView,
};
use vstd::bytes::{spec_u64_from_le_bytes, spec_u64_to_le_bytes, u64_from_le_bytes, u64_to_le_bytes};
use vstd::prelude::*;

verus! {

/// The raw content of a database of rows: primary key to stored row.
pub type Rows = Map<Seq<u8>, Seq<u8>>;

/// The key under which a row of this schema is kept.
pub open spec fn record_key(record: RecordView, schema: SchemaView) -> Seq<u8> {
    composite_key(record.values, schema.primary_index)
}

/// What a store holds under a key.
pub enum Lookup {
    /// The stored form of this row.
    Found(RecordView),
    /// Nothing.
    Missing,
    /// Bytes that are not the stored form of a row.
    Unreadable,
}

/// What `rows` holds under `key`.
pub open spec fn lookup(rows: Rows, key: Seq<u8>) -> Lookup {
    if !rows.dom().contains(key) {
        Lookup::Missing
    } else {
        match parse_record(rows[key]) {
            Some(record) => Lookup::Found(record),
            None => Lookup::Unreadable,
        }
    }
}

/// How a write ends.
pub enum WriteOutcome {
    /// The rows are now `rows`, and `op` is handed on.
    Written { op: OperationView, rows: Rows },
    /// The row to read back is not there; nothing changes.
    RecordNotFound,
    /// The row to read back cannot be read; nothing changes.
    Unreadable,
}

/// The rows after `op` is applied: an insert and an update put the new row
/// under its key, a delete takes away what stands under the old row's key.
pub open spec fn rows_after(schema: SchemaView, op: OperationView, rows: Rows) -> Rows {
    match op {
        OperationView::Insert { new } => rows.insert(record_key(new, schema), serialized_record(new)),
        OperationView::Delete { old } => rows.remove(record_key(old, schema)),
        OperationView::Update { old, new } => rows.insert(record_key(new, schema), serialized_record(new)),
    }
}

/// What a primary-key writer does with `op` on `rows`. Where the writer reads
/// old rows back, the operation handed on carries the row that was kept under
/// the key of `old`, whatever `old` itself holds.
pub open spec fn primary_key_write(
    schema: SchemaView,
    retr_old_records_for_deletes: bool,
    retr_old_records_for_updates: bool,
    op: OperationView,
    rows: Rows,
) -> WriteOutcome {
    match op {
        OperationView::Insert { new } => WriteOutcome::Written { op, rows: rows_after(schema, op, rows) },
        OperationView::Delete { old } => if retr_old_records_for_deletes {
            match lookup(rows, record_key(old, schema)) {
                Lookup::Found(kept) => WriteOutcome::Written {
                    op: OperationView::Delete { old: kept },
                    rows: rows_after(schema, op, rows),
                },
                Lookup::Missing => WriteOutcome::RecordNotFound,
                Lookup::Unreadable => WriteOutcome::Unreadable,
            }
        } else {
            WriteOutcome::Written { op, rows: rows_after(schema, op, rows) }
        },
        OperationView::Update { old, new } => if retr_old_records_for_updates {
            match lookup(rows, record_key(old, schema)) {
                Lookup::Found(kept) => WriteOutcome::Written {
                    op: OperationView::Update { old: kept, new },
                    rows: rows_after(schema, op, rows),
                },
                Lookup::Missing => WriteOutcome::RecordNotFound,
                Lookup::Unreadable => WriteOutcome::Unreadable,
            }
        } else {
            WriteOutcome::Written { op, rows: rows_after(schema, op, rows) }
        },
    }
}

/// The row that `op` puts into the store can be read back: the stored form
/// of the row is read as the row.
pub open spec fn stored_row_readable(op: OperationView) -> bool {
    match op {
        OperationView::Insert { new } => parse_record(serialized_record(new)) == Some(new),
        OperationView::Update { old, new } => parse_record(serialized_record(new)) == Some(new),
        OperationView::Delete { old } => true,
    }
}

/// The rows of `op` have a value at every primary-key index of the schema.
pub open spec fn key_fields_present(schema: SchemaView, op: OperationView) -> bool {
    match op {
        OperationView::Insert { new } => indexes_in_range(schema.primary_index, new.values.len()),
        OperationView::Delete { old } => indexes_in_range(schema.primary_index, old.values.len()),
        OperationView::Update { old, new } => indexes_in_range(schema.primary_index, old.values.len())
            && indexes_in_range(schema.primary_index, new.values.len()),
    }
}

/// `db` is a database of `tx` that keeps one value per key.
pub open spec fn is_row_database(tx: &Transaction, db: Database) -> bool {
    tx.has_database(db) && !tx.allows_duplicates(db)
}

/// Applies change operations to the rows that a port keeps.
pub trait RecordWriter: Sized {
    /// The writer can take `op` on `tx`: its databases are there, and the
    /// rows of `op` have the shape that the writer's schema asks for.
    spec fn accepts(&self, op: OperationView, tx: &Transaction) -> bool;

    /// A write of `op` that found `before` ended in `result` and left `after`.
    spec fn written(
        &self,
        op: OperationView,
        before: &Transaction,
        result: Result<Operation, ExecutionError>,
        after: &Transaction,
    ) -> bool;

    /// Applies `op` to the rows in `tx` and returns the operation to hand on.
    fn write(&mut self, op: Operation, tx: &mut Transaction) -> (result: Result<Operation, ExecutionError>)
        requires
            old(tx).wf(),
            old(self).accepts(op@, old(tx)),
        ensures
            final(tx).wf(),
            *final(self) == *old(self),
            old(self).written(op@, old(tx), result, final(tx)),
    ;
}

/// Makes the writer that a kind of output port asks for.
pub struct RecordWriterUtils {}

/// Keeps the latest row of each primary key.
#[derive(Debug)]
pub struct PrimaryKeyLookupRecordWriter {
    pub db: Database,
    pub meta_db: Database,
    pub schema: Schema,
    pub retr_old_records_for_deletes: bool,
    pub retr_old_records_for_updates: bool,
}

/// The result of a primary-key write of `op` that found `before`.
pub open spec fn primary_key_written(
    db: Database,
    schema: SchemaView,
    retr_old_records_for_deletes: bool,
    retr_old_records_for_updates: bool,
    op: OperationView,
    before: &Transaction,
    result: Result<Operation, ExecutionError>,
    after: &Transaction,
) -> bool {
    &&& unchanged_outside(before, after, set![db])
    &&& match primary_key_write(
        schema,
        retr_old_records_for_deletes,
        retr_old_records_for_updates,
        op,
        before.map(db),
    ) {
        WriteOutcome::Written { op: handed_on, rows } => {
            &&& result matches Ok(out)
            &&& out@ == handed_on
            &&& after.map(db) == rows
            &&& stored_row_readable(op)
        },
        WriteOutcome::RecordNotFound => {
            &&& result == Err::<Operation, ExecutionError>(ExecutionError::RecordNotFound)
            &&& *after == *before
        },
        WriteOutcome::Unreadable => {
            &&& result matches Err(
                ExecutionError::InternalDatabaseError(StorageError::DeserializationError { typ, .. }),
            )
            &&& typ@ == "Record"@
            &&& *after == *before
        },
    }
}

impl PrimaryKeyLookupRecordWriter {
    pub fn new(
        db: Database,
        meta_db: Database,
        schema: Schema,
        retr_old_records_for_deletes: bool,
        retr_old_records_for_updates: bool,
    ) -> (writer: Self)
        ensures
            writer.db == db,
            writer.meta_db == meta_db,
            writer.schema == schema,
            writer.retr_old_records_for_deletes == retr_old_records_for_deletes,
            writer.retr_old_records_for_updates == retr_old_records_for_updates,
    {
        Self { db, meta_db, schema, retr_old_records_for_deletes, retr_old_records_for_updates }
    }

    /// Puts the stored form of `rec` under its key in the writer's database.
    pub fn write_record(&self, rec: &Record, schema: &Schema, tx: &mut Transaction) -> (done: Result<
        (),
        ExecutionError,
    >)
        requires
            old(tx).wf(),
            is_row_database(old(tx), self.db),
            indexes_in_range(schema@.primary_index, rec@.values.len()),
        ensures
            final(tx).wf(),
            unchanged_outside(old(tx), final(tx), set![self.db]),
            done is Ok,
            parse_record(serialized_record(rec@)) == Some(rec@),
            final(tx).map(self.db) == old(tx).map(self.db).insert(record_key(rec@, schema@), serialized_record(rec@)),
    {
        let key = rec.get_key(&schema.primary_index);
        let value = serialize_record(rec);
        match tx.put(self.db, key.as_slice(), value.as_slice()) {
            Ok(()) => Ok(()),
            Err(e) => Err(ExecutionError::InternalDatabaseError(e)),
        }
    }

    /// The row that the writer's database keeps under `key`.
    pub fn retr_record(&self, key: &[u8], tx: &Transaction) -> (found: Result<Record, ExecutionError>)
        requires
            tx.wf(),
            is_row_database(tx, self.db),
        ensures
            match lookup(tx.map(self.db), key@) {
                Lookup::Found(record) => found matches Ok(r) && r@ == record,
                Lookup::Missing => found == Err::<Record, ExecutionError>(ExecutionError::RecordNotFound),
                Lookup::Unreadable => found matches Err(
                    ExecutionError::InternalDatabaseError(StorageError::DeserializationError { typ, .. }),
                ) && typ@ == "Record"@,
            },
    {
        let curr = match tx.get(self.db, key) {
            Ok(Some(bytes)) => bytes,
            Ok(None) => {
                return Err(ExecutionError::RecordNotFound);
            },
            Err(e) => {
                return Err(ExecutionError::InternalDatabaseError(e));
            },
        };
        match deserialize_record(curr.as_slice()) {
            Some(record) => Ok(record),
            None => Err(
                ExecutionError::InternalDatabaseError(
                    StorageError::DeserializationError {
                        typ: text("Record"),
                        reason: text("the bytes are not the stored form of a row"),
                    },
                ),
            ),
        }
    }
}

impl RecordWriter for PrimaryKeyLookupRecordWriter {
    open spec fn accepts(&self, op: OperationView, tx: &Transaction) -> bool {
        is_row_database(tx, self.db) && key_fields_present(self.schema@, op)
    }

    open spec fn written(
        &self,
        op: OperationView,
        before: &Transaction,
        result: Result<Operation, ExecutionError>,
        after: &Transaction,
    ) -> bool {
        primary_key_written(
            self.db,
            self.schema@,
            self.retr_old_records_for_deletes,
            self.retr_old_records_for_updates,
            op,
            before,
            result,
            after,
        )
    }

    fn write(&mut self, op: Operation, tx: &mut Transaction) -> (result: Result<Operation, ExecutionError>) {
        match op {
            Operation::Insert { new } => {
                match self.write_record(&new, &self.schema, tx) {
                    Ok(()) => Ok(Operation::Insert { new }),
                    Err(e) => Err(e),
                }
            },
            Operation::Delete { old } => {
                let mut old = old;
                let key = old.get_key(&self.schema.primary_index);
                if self.retr_old_records_for_deletes {
                    old = match self.retr_record(key.as_slice(), tx) {
                        Ok(kept) => kept,
                        Err(e) => {
                            return Err(e);
                        },
                    };
                }
                match tx.del(self.db, key.as_slice(), None) {
                    Ok(_) => Ok(Operation::Delete { old }),
                    Err(e) => Err(ExecutionError::InternalDatabaseError(e)),
                }
            },
            Operation::Update { old, new } => {
                let mut old = old;
                let key = old.get_key(&self.schema.primary_index);
                if self.retr_old_records_for_updates {
                    old = match self.retr_record(key.as_slice(), tx) {
                        Ok(kept) => kept,
                        Err(e) => {
                            return Err(e);
                        },
                    };
                }
                match self.write_record(&new, &self.schema, tx) {
                    Ok(()) => Ok(Operation::Update { old, new }),
                    Err(e) => Err(e),
                }
            },
        }
    }
}

/// The name of the column that holds the row number of a row that has no key of its own.
pub const DOZER_ROWID: &'static str = "_DOZER_ROWID";

/// The key under which the next row number is kept.
pub open spec fn counter_key() -> Seq<u8> {
    seq![0u8, 0u8]
}

/// The row number that the next insert gets: 1 before the first insert, else
/// the number kept under the counter key. `None` where what is kept there are
/// not the eight bytes of a number.
pub open spec fn next_row_id(meta: Rows) -> Option<u64> {
    if !meta.dom().contains(counter_key()) {
        Some(1u64)
    } else if meta[counter_key()].len() == 8 {
        Some(spec_u64_from_le_bytes(meta[counter_key()]))
    } else {
        None
    }
}

/// Row numbers increase by one: once the number `id` is taken, the next
/// number to be taken is `id + 1`.
pub proof fn lemma_row_ids_increase(meta: Rows, id: u64)
    requires
        id < u64::MAX,
    ensures
        next_row_id(meta.insert(counter_key(), spec_u64_to_le_bytes((id + 1) as u64))) == Some((id + 1) as u64),
{
    vstd::bytes::lemma_auto_spec_u64_to_from_le_bytes();
}

/// `record` with the row number `id` as one more value at its end.
pub open spec fn numbered(record: RecordView, id: u64) -> RecordView {
    RecordView { values: record.values.push(FieldValue::UInt(id)), ..record }
}

/// How a write to a store of numbered rows ends.
pub enum AutogenOutcome {
    /// The row got its number; rows and counter are now as given.
    Written { op: OperationView, rows: Rows, meta: Rows },
    /// The kept counter cannot be read; nothing changes.
    CounterUnreadable,
    /// Updates are not taken; nothing changes.
    UnsupportedUpdate,
    /// Deletes are not taken; nothing changes.
    UnsupportedDelete,
}

/// What a writer of numbered rows does with `op`.
pub open spec fn autogen_write(schema: SchemaView, op: OperationView, rows: Rows, meta: Rows) -> AutogenOutcome {
    match op {
        OperationView::Insert { new } => match next_row_id(meta) {
            None => AutogenOutcome::CounterUnreadable,
            Some(id) => AutogenOutcome::Written {
                op: OperationView::Insert { new: numbered(new, id) },
                rows: rows.insert(record_key(numbered(new, id), schema), serialized_record(numbered(new, id))),
                meta: meta.insert(counter_key(), spec_u64_to_le_bytes((id + 1) as u64)),
            },
        },
        OperationView::Update { .. } => AutogenOutcome::UnsupportedUpdate,
        OperationView::Delete { .. } => AutogenOutcome::UnsupportedDelete,
    }
}

/// The result of a write of `op` to a store of numbered rows that found `before`.
pub open spec fn autogen_written(
    db: Database,
    meta_db: Database,
    schema: SchemaView,
    op: OperationView,
    before: &Transaction,
    result: Result<Operation, ExecutionError>,
    after: &Transaction,
) -> bool {
    &&& unchanged_outside(before, after, set![db, meta_db])
    &&& match autogen_write(schema, op, before.map(db), before.map(meta_db)) {
        AutogenOutcome::Written { op: handed_on, rows, meta } => {
            &&& result matches Ok(out)
            &&& out@ == handed_on
            &&& after.map(db) == rows
            &&& after.map(meta_db) == meta
            &&& stored_row_readable(handed_on)
        },
        AutogenOutcome::CounterUnreadable => {
            &&& result matches Err(
                ExecutionError::InternalDatabaseError(StorageError::DeserializationError { typ, .. }),
            )
            &&& typ@ == "u64"@
            &&& *after == *before
        },
        AutogenOutcome::UnsupportedUpdate => {
            &&& result matches Err(ExecutionError::UnsupportedUpdateOperation(_))
            &&& *after == *before
        },
        AutogenOutcome::UnsupportedDelete => {
            &&& result matches Err(ExecutionError::UnsupportedDeleteOperation(_))
            &&& *after == *before
        },
    }
}

/// Whether a writer of numbered rows with these databases and this schema can take `op` on `tx`.
pub open spec fn autogen_accepts(
    db: Database,
    meta_db: Database,
    schema: SchemaView,
    op: OperationView,
    tx: &Transaction,
) -> bool {
    &&& is_row_database(tx, db)
    &&& is_row_database(tx, meta_db)
    &&& db != meta_db
    &&& op matches OperationView::Insert { new } ==> {
        &&& schema.primary_index == seq![new.values.len() as usize]
        &&& new.values.len() < usize::MAX
        &&& next_row_id(tx.map(meta_db)) matches Some(id) ==> id < u64::MAX
    }
}

/// Keeps every row under a row number of its own; rows are only added.
#[derive(Debug)]
pub struct AutogenRowKeyLookupRecordWriter {
    pub db: Database,
    pub meta_db: Database,
    pub schema: Schema,
}

impl AutogenRowKeyLookupRecordWriter {
    /// The schema of the numbered rows: the columns of `schema`, then the row
    /// number, which alone is the primary key.
    pub fn prepare_schema(schema: Schema) -> (prepared: Schema)
        ensures
            prepared@ == (SchemaView {
                identifier: schema@.identifier,
                fields: schema@.fields.push(
                    FieldDefinitionView { name: DOZER_ROWID@, typ: FieldType::UInt, nullable: false },
                ),
                primary_index: seq![schema@.fields.len() as usize],
            }),
            prepared@.well_formed(),
    {
        let mut schema = schema;
        let ghost before = schema@;
        let row_id = schema.fields.len();
        schema.fields.push(FieldDefinition::new(text(DOZER_ROWID), FieldType::UInt, false));
        let mut primary_index: Vec<usize> = Vec::new();
        primary_index.push(row_id);
        schema.primary_index = primary_index;
        assert(schema@.fields =~= before.fields.push(
            FieldDefinitionView { name: DOZER_ROWID@, typ: FieldType::UInt, nullable: false },
        ));
        assert(schema@.primary_index =~= seq![before.fields.len() as usize]);
        schema
    }

    pub fn new(db: Database, meta_db: Database, schema: Schema) -> (writer: Self)
        ensures
            writer.db == db,
            writer.meta_db == meta_db,
            writer.schema == schema,
    {
        Self { db, meta_db, schema }
    }

    /// Puts the stored form of `rec` under its key in the writer's database.
    pub fn write_record(&self, rec: &Record, schema: &Schema, tx: &mut Transaction) -> (done: Result<
        (),
        ExecutionError,
    >)
        requires
            old(tx).wf(),
            is_row_database(old(tx), self.db),
            indexes_in_range(schema@.primary_index, rec@.values.len()),
        ensures
            final(tx).wf(),
            unchanged_outside(old(tx), final(tx), set![self.db]),
            done is Ok,
            parse_record(serialized_record(rec@)) == Some(rec@),
            final(tx).map(self.db) == old(tx).map(self.db).insert(record_key(rec@, schema@), serialized_record(rec@)),
    {
        let key = rec.get_key(&schema.primary_index);
        let value = serialize_record(rec);
        match tx.put(self.db, key.as_slice(), value.as_slice()) {
            Ok(()) => Ok(()),
            Err(e) => Err(ExecutionError::InternalDatabaseError(e)),
        }
    }

    /// Takes the next row number and keeps the one after it for the next call.
    pub fn get_autogen_counter(&mut self, tx: &mut Transaction) -> (id: Result<u64, StorageError>)
        requires
            old(tx).wf(),
            is_row_database(old(tx), old(self).meta_db),
            next_row_id(old(tx).map(old(self).meta_db)) matches Some(next) ==> next < u64::MAX,
        ensures
            *final(self) == *old(self),
            final(tx).wf(),
            unchanged_outside(old(tx), final(tx), set![old(self).meta_db]),
            match next_row_id(old(tx).map(old(self).meta_db)) {
                Some(next) => {
                    &&& id == Ok::<u64, StorageError>(next)
                    &&& final(tx).map(old(self).meta_db) == old(tx).map(old(self).meta_db).insert(
                        counter_key(),
                        spec_u64_to_le_bytes((next + 1) as u64),
                    )
                },
                None => {
                    &&& id matches Err(StorageError::DeserializationError { typ, .. })
                    &&& typ@ == "u64"@
                    &&& *final(tx) == *old(tx)
                },
            },
    {
        let mut counter_key: Vec<u8> = Vec::new();
        counter_key.push(0u8);
        counter_key.push(0u8);
        assert(counter_key@ =~= self::counter_key());
        let curr_counter = match tx.get(self.meta_db, counter_key.as_slice()) {
            Ok(Some(c)) => {
                if c.len() != 8 {
                    return Err(
                        StorageError::DeserializationError {
                            typ: text("u64"),
                            reason: text("the counter is not kept in eight bytes"),
                        },
                    );
                }
                u64_from_le_bytes(c.as_slice())
            },
            Ok(None) => 1u64,
            Err(e) => {
                return Err(e);
            },
        };
        let next = u64_to_le_bytes(curr_counter + 1);
        match tx.put(self.meta_db, counter_key.as_slice(), next.as_slice()) {
            Ok(()) => Ok(curr_counter),
            Err(e) => Err(e),
        }
    }
}

impl RecordWriter for AutogenRowKeyLookupRecordWriter {
    open spec fn accepts(&self, op: OperationView, tx: &Transaction) -> bool {
        autogen_accepts(self.db, self.meta_db, self.schema@, op, tx)
    }

    open spec fn written(
        &self,
        op: OperationView,
        before: &Transaction,
        result: Result<Operation, ExecutionError>,
        after: &Transaction,
    ) -> bool {
        autogen_written(self.db, self.meta_db, self.schema@, op, before, result, after)
    }

    fn write(&mut self, op: Operation, tx: &mut Transaction) -> (result: Result<Operation, ExecutionError>) {
        match op {
            Operation::Insert { new } => {
                let mut new = new;
                let ghost given = new@;
                let ctr = match self.get_autogen_counter(tx) {
                    Ok(ctr) => ctr,
                    Err(e) => {
                        return Err(ExecutionError::InternalDatabaseError(e));
                    },
                };
                let ghost counted = *tx;
                new.values.push(Field::UInt(ctr));
                proof {
                    assert(new@.values =~= given.values.push(FieldValue::UInt(ctr)));
                    assert(new@ == numbered(given, ctr));
                    assert(old(tx).has_database(self.db));
                    assert(counted.entries(self.db) == old(tx).entries(self.db));
                }
                let done = self.write_record(&new, &self.schema, tx);
                proof {
                    assert(counted.has_database(self.meta_db));
                    assert(tx.entries(self.meta_db) == counted.entries(self.meta_db));
                    assert forall|other: Database| #[trigger] old(tx).has_database(other) implies {
                        &&& tx.allows_duplicates(other) == old(tx).allows_duplicates(other)
                        &&& !set![self.db, self.meta_db].contains(other) ==> tx.entries(other) == old(tx).entries(
                            other,
                        )
                    } by {
                        assert(counted.has_database(other));
                    }
                }
                match done {
                    Ok(()) => Ok(Operation::Insert { new }),
                    Err(e) => Err(e),
                }
            },
            Operation::Update { .. } => Err(
                ExecutionError::UnsupportedUpdateOperation(
                    text("AutogenRowsIdLookupRecordWriter does not support update operations"),
                ),
            ),
            Operation::Delete { .. } => Err(
                ExecutionError::UnsupportedDeleteOperation(
                    text("AutogenRowsIdLookupRecordWriter does not support delete operations"),
                ),
            ),
        }
    }
}

/// The writer of a port: one of the two kinds of writer.
#[derive(Debug)]
pub enum PortWriter {
    PrimaryKey(PrimaryKeyLookupRecordWriter),
    Autogen(AutogenRowKeyLookupRecordWriter),
}

impl RecordWriter for PortWriter {
    open spec fn accepts(&self, op: OperationView, tx: &Transaction) -> bool {
        match self {
            PortWriter::PrimaryKey(writer) => writer.accepts(op, tx),
            PortWriter::Autogen(writer) => writer.accepts(op, tx),
        }
    }

    open spec fn written(
        &self,
        op: OperationView,
        before: &Transaction,
        result: Result<Operation, ExecutionError>,
        after: &Transaction,
    ) -> bool {
        match self {
            PortWriter::PrimaryKey(writer) => writer.written(op, before, result, after),
            PortWriter::Autogen(writer) => writer.written(op, before, result, after),
        }
    }

    fn write(&mut self, op: Operation, tx: &mut Transaction) -> (result: Result<Operation, ExecutionError>) {
        match self {
            PortWriter::PrimaryKey(writer) => writer.write(op, tx),
            PortWriter::Autogen(writer) => writer.write(op, tx),
        }
    }
}

impl RecordWriterUtils {
    /// The writer for a port of kind `typ` that keeps its rows in `db`.
    /// A port that keeps nothing has no writer.
    pub fn create_writer(typ: OutputPortType, db: Database, meta_db: Database, schema: Schema) -> (writer: Result<
        PortWriter,
        ExecutionError,
    >)
        ensures
            match typ {
                OutputPortType::StatefulWithPrimaryKeyLookup {
                    retr_old_records_for_deletes,
                    retr_old_records_for_updates,
                } => writer == Ok::<PortWriter, ExecutionError>(
                    PortWriter::PrimaryKey(
                        PrimaryKeyLookupRecordWriter {
                            db,
                            meta_db,
                            schema,
                            retr_old_records_for_deletes,
                            retr_old_records_for_updates,
                        },
                    ),
                ),
                OutputPortType::AutogenRowKeyLookup => writer == Ok::<PortWriter, ExecutionError>(
                    PortWriter::Autogen(AutogenRowKeyLookupRecordWriter { db, meta_db, schema }),
                ),
                OutputPortType::Stateless => writer == Err::<PortWriter, ExecutionError>(
                    ExecutionError::InvalidPortType,
                ),
            },
    {
        match typ {
            OutputPortType::StatefulWithPrimaryKeyLookup {
                retr_old_records_for_deletes,
                retr_old_records_for_updates,
            } => Ok(
                PortWriter::PrimaryKey(
                    PrimaryKeyLookupRecordWriter::new(
                        db,
                        meta_db,
                        schema,
                        retr_old_records_for_deletes,
                        retr_old_records_for_updates,
                    ),
                ),
            ),
            OutputPortType::AutogenRowKeyLookup => Ok(
                PortWriter::Autogen(AutogenRowKeyLookupRecordWriter::new(db, meta_db, schema)),
            ),
            OutputPortType::Stateless => Err(ExecutionError::InvalidPortType),
        }
    }
}

/// Reads the rows that a writer keeps in one database of a transaction.
#[derive(Debug)]
pub struct RecordReader<'a> {
    pub tx: &'a Transaction,
    pub db: Database,
}

impl<'a> RecordReader<'a> {
    pub fn new(tx: &'a Transaction, db: Database) -> (reader: Self)
        ensures
            reader.tx == tx,
            reader.db == db,
    {
        Self { tx, db }
    }

    /// The stored row under `key`, or `None` where the database keeps none.
    pub fn get(&self, key: &[u8]) -> (found: Result<Option<Vec<u8>>, StorageError>)
        requires
            self.tx.wf(),
        ensures
            !self.tx.has_database(self.db) ==> found == Err::<Option<Vec<u8>>, StorageError>(
                StorageError::InvalidDatabase,
            ),
            is_row_database(self.tx, self.db) ==> found is Ok && match found->Ok_0 {
                Some(bytes) => self.tx.map(self.db).dom().contains(key@) && self.tx.map(self.db)[key@] == bytes@,
                None => !self.tx.map(self.db).dom().contains(key@),
            },
    {
        self.tx.get(self.db, key)
    }
}

/// The rows after a run of operations is applied, first to last.
pub open spec fn rows_after_all(schema: SchemaView, ops: Seq<OperationView>, rows: Rows) -> Rows
    decreases ops.len(),
{
    if ops.len() == 0 {
        rows
    } else {
        rows_after(schema, ops.last(), rows_after_all(schema, ops.drop_last(), rows))
    }
}

/// The key that an operation writes or removes.
pub open spec fn written_key(schema: SchemaView, op: OperationView) -> Seq<u8> {
    match op {
        OperationView::Insert { new } => record_key(new, schema),
        OperationView::Delete { old } => record_key(old, schema),
        OperationView::Update { old, new } => record_key(new, schema),
    }
}

/// What `rows` holds under `key`, if anything.
pub open spec fn kept(rows: Rows, key: Seq<u8>) -> Option<Seq<u8>> {
    if rows.dom().contains(key) {
        Some(rows[key])
    } else {
        None
    }
}

/// Some operation of the run writes or removes `key`.
pub open spec fn touches(schema: SchemaView, ops: Seq<OperationView>, key: Seq<u8>) -> bool {
    exists|i: int| 0 <= i < ops.len() && written_key(schema, #[trigger] ops[i]) == key
}

/// Upsert: once a row is inserted and then updated under the same key, the
/// store holds the updated row under that key and never the inserted one;
/// once it is deleted, the store holds nothing there.
pub proof fn lemma_upsert_then_read(
    schema: SchemaView,
    retr_old_records_for_deletes: bool,
    retr_old_records_for_updates: bool,
    inserted: RecordView,
    updated: RecordView,
    rows: Rows,
)
    requires
        record_key(inserted, schema) == record_key(updated, schema),
        record_storable(inserted),
        record_storable(updated),
    ensures
        ({
            let key = record_key(inserted, schema);
            let insert = OperationView::Insert { new: inserted };
            let update = OperationView::Update { old: inserted, new: updated };
            let delete = OperationView::Delete { old: updated };
            let after_insert = rows_after(schema, insert, rows);
            let after_update = rows_after(schema, update, after_insert);
            let after_delete = rows_after(schema, delete, after_update);
            &&& primary_key_write(schema, retr_old_records_for_deletes, retr_old_records_for_updates, insert, rows)
                == (WriteOutcome::Written { op: insert, rows: after_insert })
            &&& lookup(after_insert, key) == Lookup::Found(inserted)
            &&& primary_key_write(
                schema,
                retr_old_records_for_deletes,
                retr_old_records_for_updates,
                update,
                after_insert,
            ) == (WriteOutcome::Written { op: update, rows: after_update })
            &&& lookup(after_update, key) == Lookup::Found(updated)
            &&& primary_key_write(
                schema,
                retr_old_records_for_deletes,
                retr_old_records_for_updates,
                delete,
                after_update,
            ) == (WriteOutcome::Written { op: delete, rows: after_delete })
            &&& lookup(after_delete, key) == Lookup::Missing
        }),
{
    crate::codec::lemma_parse_serialized_record(inserted);
    crate::codec::lemma_parse_serialized_record(updated);
}

/// Old-value retrieval: a writer that reads old rows back for updates hands
/// the update on with the row that the store kept under the key, whatever the
/// update itself carried as its old row.
pub proof fn lemma_update_carries_kept_row(
    schema: SchemaView,
    retr_old_records_for_deletes: bool,
    kept_row: RecordView,
    placeholder: RecordView,
    new: RecordView,
    rows: Rows,
)
    requires
        record_storable(kept_row),
        kept(rows, record_key(placeholder, schema)) == Some(serialized_record(kept_row)),
    ensures
        primary_key_write(
            schema,
            retr_old_records_for_deletes,
            true,
            OperationView::Update { old: placeholder, new },
            rows,
        ) == (WriteOutcome::Written {
            op: OperationView::Update { old: kept_row, new },
            rows: rows.insert(record_key(new, schema), serialized_record(new)),
        }),
{
    crate::codec::lemma_parse_serialized_record(kept_row);
}

/// What a run of operations leaves under a key does not depend on what was
/// there before, where the run touches the key, and is what was there before,
/// where it does not.
pub proof fn lemma_rows_after_all_at(schema: SchemaView, ops: Seq<OperationView>, a: Rows, b: Rows, key: Seq<u8>)
    ensures
        touches(schema, ops, key) ==> kept(rows_after_all(schema, ops, a), key) == kept(
            rows_after_all(schema, ops, b),
            key,
        ),
        !touches(schema, ops, key) ==> kept(rows_after_all(schema, ops, a), key) == kept(a, key),
    decreases ops.len(),
{
    if ops.len() > 0 {
        let front = ops.drop_last();
        lemma_rows_after_all_at(schema, front, a, b, key);
        if written_key(schema, ops.last()) == key {
            assert(written_key(schema, ops[ops.len() - 1]) == key);
        } else {
            if touches(schema, ops, key) {
                let i = choose|i: int| 0 <= i < ops.len() && written_key(schema, #[trigger] ops[i]) == key;
                assert(written_key(schema, front[i]) == key);
            }
            if touches(schema, front, key) {
                let i = choose|i: int| 0 <= i < front.len() && written_key(schema, #[trigger] front[i]) == key;
                assert(written_key(schema, ops[i]) == key);
            }
        }
    }
}

/// A run of operations applied in two parts gives what the whole run gives.
pub proof fn lemma_rows_after_all_split(schema: SchemaView, first: Seq<OperationView>, second: Seq<OperationView>, rows: Rows)
    ensures
        rows_after_all(schema, first + second, rows) == rows_after_all(
            schema,
            second,
            rows_after_all(schema, first, rows),
        ),
    decreases second.len(),
{
    if second.len() == 0 {
        assert(first + second =~= first);
    } else {
        lemma_rows_after_all_split(schema, first, second.drop_last(), rows);
        assert((first + second).drop_last() =~= first + second.drop_last());
        assert((first + second).last() == second.last());
    }
}

/// Applying a run of operations a second time changes nothing.
pub proof fn lemma_rows_after_all_idempotent(schema: SchemaView, ops: Seq<OperationView>, rows: Rows)
    ensures
        rows_after_all(schema, ops, rows_after_all(schema, ops, rows)) == rows_after_all(schema, ops, rows),
{
    let once = rows_after_all(schema, ops, rows);
    let twice = rows_after_all(schema, ops, once);
    assert forall|key: Seq<u8>| kept(twice, key) == kept(once, key) by {
        lemma_rows_after_all_at(schema, ops, once, rows, key);
    }
    assert forall|key: Seq<u8>| twice.dom().contains(key) == once.dom().contains(key) by {
        assert(kept(twice, key) == kept(once, key));
    }
    assert forall|key: Seq<u8>| twice.dom().contains(key) implies twice[key] == once[key] by {
        assert(kept(twice, key) == kept(once, key));
    }
    assert(twice =~= once);
}

/// Checkpoint idempotence: a store that was committed after the first
/// `committed` operations of a run, and is then fed the run again from any
/// earlier position `from`, ends with exactly the rows that one pass over the
/// whole run gives. The rows are a map, so no key is held twice.
pub proof fn lemma_replay_from_checkpoint(
    schema: SchemaView,
    ops: Seq<OperationView>,
    from: int,
    committed: int,
    rows: Rows,
)
    requires
        0 <= from <= committed <= ops.len(),
    ensures
        rows_after_all(
            schema,
            ops.subrange(from, ops.len() as int),
            rows_after_all(schema, ops.subrange(0, committed), rows),
        ) == rows_after_all(schema, ops, rows),
{
    let head = ops.subrange(0, from);
    let again = ops.subrange(from, committed);
    let rest = ops.subrange(committed, ops.len() as int);
    let at_from = rows_after_all(schema, head, rows);
    let at_commit = rows_after_all(schema, ops.subrange(0, committed), rows);
    assert(ops.subrange(0, committed) =~= head + again);
    assert(ops.subrange(from, ops.len() as int) =~= again + rest);
    assert(ops =~= ops.subrange(0, committed) + rest);
    lemma_rows_after_all_split(schema, head, again, rows);
    lemma_rows_after_all_split(schema, again, rest, at_commit);
    lemma_rows_after_all_idempotent(schema, again, at_from);
    lemma_rows_after_all_split(schema, ops.subrange(0, committed), rest, rows);
}

} // verus!
