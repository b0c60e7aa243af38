//! The inner join of two streams of rows.
//!
//! Each side of a join keeps an index from join key to the primary keys of the
//! rows with that key. Both indexes live in one database with duplicate keys,
//! each in a partition of its own: the left one under the number of the left
//! port, the right one under the number of the right port with the highest bit
//! set. A row that arrives on one side is joined with every row that the index
//! of the other side names for its join key.

use crate::codec::deserialize_record;
use crate::encoding::bytes_eq;
use crate::errors::{ExecutionError, StorageError, TypeError};
use crate::node::PortHandle;
use crate::prefix_transaction::{
    has_prefix, lemma_has_prefix_is_prefixed, lemma_prefixed_has_prefix, prefixed, PrefixTransaction,
};
use crate::record_store::{is_row_database, lookup, Lookup, RecordReader, Rows};
use crate::storage::{
    lemma_same_key_between, lemma_values_of_absent, lemma_values_of_concat, lemma_values_of_contains, removes,
    sorted, unchanged_outside, values_of, Database, Pair, Transaction,
};
use crate::types::{
    composite_key, text, field_views, indexes_in_range, FieldValue, Record, RecordView, Schema,
};
use std::collections::HashMap;
use vstd::prelude::*;

verus! {

/// The bit that marks the partition of the right side of a join.
pub const REVERSE_JOIN_FLAG: u32 = 0x80000000;

/// The partition of the index of the rows that arrive on the left port.
pub open spec fn left_partition(port: PortHandle) -> u32 {
    port as u32
}

/// The partition of the index of the rows that arrive on the right port.
pub open spec fn right_partition(port: PortHandle) -> u32 {
    port as u32 | REVERSE_JOIN_FLAG
}

/// The partitions of a left and of a right side are never the same one,
/// whatever their ports.
pub proof fn lemma_sides_never_share_a_partition(left: PortHandle, right: PortHandle)
    ensures
        left_partition(left) != right_partition(right),
{
    let l = left as u32;
    let r = right as u32;
    assert(l < 0x10000 && r < 0x10000 ==> l != (r | 0x80000000u32)) by (bit_vector);
}

/// A table that takes part in a join, with the joins to its left and right.
#[derive(Debug)]
pub struct JoinTable {
    pub name: String,
    pub schema: Schema,
    pub left: Option<JoinOperator>,
    pub right: Option<JoinOperator>,
}

impl JoinTable {
    /// The table `name` with rows of `schema`, not yet joined to anything.
    pub fn from(name: String, schema: &Schema) -> (table: Self)
        ensures
            table.name == name,
            table.schema@ == schema@,
            table.left is None,
            table.right is None,
    {
        Self { name, schema: schema.clone(), left: None, right: None }
    }
}

/// The kind of a join.
#[derive(Clone, Copy, Debug, PartialEq, Eq, Structural)]
pub enum JoinOperatorType {
    Inner,
}

/// The first index of `indexes` that names no value of a row of `len` values.
pub open spec fn first_missing(indexes: Seq<usize>, len: nat) -> Option<usize>
    decreases indexes.len(),
{
    if indexes.len() == 0 {
        None
    } else if indexes[0] >= len {
        Some(indexes[0])
    } else {
        first_missing(indexes.skip(1), len)
    }
}

/// The key of `record` under the columns `key_indexes`: the type-tagged
/// encodings of those values, in the order of `key_indexes`. An index that
/// names no value of the row is an `InvalidFieldIndex`.
pub fn get_composite_key(record: &Record, key_indexes: &[usize]) -> (key: Result<Vec<u8>, TypeError>)
    ensures
        match first_missing(key_indexes@, record@.values.len()) {
            Some(idx) => key == Err::<Vec<u8>, TypeError>(TypeError::InvalidFieldIndex(idx)),
            None => key matches Ok(k) && k@ == composite_key(record@.values, key_indexes@) && indexes_in_range(
                key_indexes@,
                record@.values.len(),
            ),
        },
{
    let mut join_key: Vec<u8> = Vec::new();
    let mut i: usize = 0;
    proof {
        assert(key_indexes@.skip(0) =~= key_indexes@);
        assert(key_indexes@.subrange(0, 0) =~= Seq::<usize>::empty());
    }
    while i < key_indexes.len()
        invariant
            i <= key_indexes@.len(),
            first_missing(key_indexes@, record@.values.len()) == first_missing(
                key_indexes@.skip(i as int),
                record@.values.len(),
            ),
            forall|k: int| 0 <= k < i ==> key_indexes@[k] < record@.values.len(),
            join_key@ == composite_key(record@.values, key_indexes@.subrange(0, i as int)),
        decreases key_indexes@.len() - i,
    {
        let idx = key_indexes[i];
        proof {
            assert(key_indexes@.skip(i as int)[0] == idx);
            assert(key_indexes@.skip(i as int).skip(1) =~= key_indexes@.skip(i + 1));
        }
        match record.get_value(idx) {
            Err(e) => {
                return Err(e);
            },
            Ok(value) => {
                value.encode_buf(&mut join_key);
            },
        }
        proof {
            let next = key_indexes@.subrange(0, i + 1);
            assert(next.drop_last() =~= key_indexes@.subrange(0, i as int));
            assert(next.last() == idx);
            assert(record@.values[idx as int] == record.values@[idx as int]@);
        }
        i = i + 1;
    }
    proof {
        assert(key_indexes@.subrange(0, i as int) =~= key_indexes@);
    }
    Ok(join_key)
}

/// The key of `record` under the primary key of `schema`.
pub fn get_lookup_key(record: &Record, schema: &Schema) -> (key: Result<Vec<u8>, TypeError>)
    ensures
        match first_missing(schema@.primary_index, record@.values.len()) {
            Some(idx) => key == Err::<Vec<u8>, TypeError>(TypeError::InvalidFieldIndex(idx)),
            None => key matches Ok(k) && k@ == composite_key(record@.values, schema@.primary_index),
        },
{
    get_composite_key(record, schema.primary_index.as_slice())
}

/// The row of a match: the values of the left row, then those of the right
/// row. It belongs to no schema and has no version.
pub open spec fn joined(left: RecordView, right: RecordView) -> RecordView {
    RecordView { schema_id: None, values: left.values + right.values, version: None }
}

/// Moves the values of `right_record` behind those of `left_record` and
/// returns the row of all of them.
pub fn join_records(left_record: &mut Record, right_record: &mut Record) -> (row: Record)
    ensures
        row@ == joined(old(left_record)@, old(right_record)@),
        final(left_record)@ == (RecordView { values: row@.values, ..old(left_record)@ }),
        final(right_record)@ == (RecordView { values: Seq::empty(), ..old(right_record)@ }),
{
    let ghost l = left_record@.values;
    let ghost r = right_record@.values;
    left_record.values.append(&mut right_record.values);
    proof {
        assert(field_views(left_record.values@) =~= l + r);
        assert(field_views(right_record.values@) =~= Seq::<FieldValue>::empty());
    }
    Record::new(None, crate::types::clone_fields(&left_record.values), None)
}

/// The byte strings of a list of byte vectors.
pub open spec fn byte_strings(v: Seq<Vec<u8>>) -> Seq<Seq<u8>> {
    Seq::new(v.len(), |i: int| v[i]@)
}

/// The views of a list of rows.
pub open spec fn record_views(v: Seq<Record>) -> Seq<RecordView> {
    Seq::new(v.len(), |i: int| v[i]@)
}

/// The rows that `record` gives with the rows that `rows` keeps under
/// `keys`, in the order of `keys`. A key under which nothing is kept gives no
/// row. `None` where a kept row cannot be read.
pub open spec fn probe(record: RecordView, record_is_left: bool, keys: Seq<Seq<u8>>, rows: Rows) -> Option<
    Seq<RecordView>,
>
    decreases keys.len(),
{
    if keys.len() == 0 {
        Some(Seq::empty())
    } else {
        match probe(record, record_is_left, keys.drop_last(), rows) {
            None => None,
            Some(front) => match lookup(rows, keys.last()) {
                Lookup::Missing => Some(front),
                Lookup::Unreadable => None,
                Lookup::Found(other) => Some(
                    front.push(
                        if record_is_left {
                            joined(record, other)
                        } else {
                            joined(other, record)
                        },
                    ),
                ),
            },
        }
    }
}

/// The rows that each of `records` gives with the rows kept under `keys`,
/// row after row. `None` where a kept row cannot be read.
pub open spec fn probe_all(records: Seq<RecordView>, record_is_left: bool, keys: Seq<Seq<u8>>, rows: Rows) -> Option<
    Seq<RecordView>,
>
    decreases records.len(),
{
    if records.len() == 0 {
        Some(Seq::empty())
    } else {
        match probe_all(records.drop_last(), record_is_left, keys, rows) {
            None => None,
            Some(front) => match probe(records.last(), record_is_left, keys, rows) {
                None => None,
                Some(more) => Some(front + more),
            },
        }
    }
}

proof fn lemma_probe_fails(record: RecordView, record_is_left: bool, keys: Seq<Seq<u8>>, failing: int, rows: Rows)
    requires
        0 <= failing <= keys.len(),
        probe(record, record_is_left, keys.subrange(0, failing), rows) is None,
    ensures
        probe(record, record_is_left, keys, rows) is None,
    decreases keys.len(),
{
    if failing < keys.len() {
        assert(keys.drop_last().subrange(0, failing) =~= keys.subrange(0, failing));
        lemma_probe_fails(record, record_is_left, keys.drop_last(), failing, rows);
    } else {
        assert(keys.subrange(0, failing) =~= keys);
    }
}

proof fn lemma_probe_all_fails(
    records: Seq<RecordView>,
    record_is_left: bool,
    keys: Seq<Seq<u8>>,
    failing: int,
    rows: Rows,
)
    requires
        0 <= failing <= records.len(),
        probe_all(records.subrange(0, failing), record_is_left, keys, rows) is None,
    ensures
        probe_all(records, record_is_left, keys, rows) is None,
    decreases records.len(),
{
    if failing < records.len() {
        assert(records.drop_last().subrange(0, failing) =~= records.subrange(0, failing));
        lemma_probe_all_fails(records.drop_last(), record_is_left, keys, failing, rows);
    } else {
        assert(records.subrange(0, failing) =~= records);
    }
}

/// The primary keys that the partition `prefix` of `db` holds under
/// `join_key`, in ascending order.
fn scan_partition(prefix: u32, join_key: &[u8], db: Database, tx: &Transaction) -> (keys: Result<
    Vec<Vec<u8>>,
    ExecutionError,
>)
    requires
        tx.wf(),
    ensures
        !tx.has_database(db) ==> keys == Err::<Vec<Vec<u8>>, ExecutionError>(
            ExecutionError::InternalDatabaseError(StorageError::InvalidDatabase),
        ),
        tx.has_database(db) ==> (keys matches Ok(found) && byte_strings(found@) == values_of(
            tx.entries(db),
            prefixed(prefix, join_key@),
        )),
{
    let partition = PrefixTransaction::new(prefix);
    let mut cursor = match tx.open_cursor(db) {
        Ok(cursor) => cursor,
        Err(e) => {
            return Err(ExecutionError::InternalDatabaseError(e));
        },
    };
    let ghost s = tx.entries(db);
    let ghost full = prefixed(prefix, join_key@);
    let mut output_keys: Vec<Vec<u8>> = Vec::new();
    proof {
        tx.lemma_entries_sorted(db);
        lemma_prefixed_has_prefix(prefix, join_key@);
    }
    if !partition.seek(tx, &mut cursor, join_key) {
        proof {
            assert forall|i: int| 0 <= i < s.len() implies (#[trigger] s[i]).0 != full by {
                if s[i].0 == full {
                    assert(s.contains((full, s[i].1)));
                }
            }
            lemma_values_of_absent(s, full);
            assert(byte_strings(output_keys@) =~= Seq::<Seq<u8>>::empty());
        }
        return Ok(output_keys);
    }
    let ghost first = cursor.pos as int;
    proof {
        assert forall|i: int| 0 <= i < s.subrange(0, first).len() implies (#[trigger] s.subrange(0, first)[i]).0
            != full by {
            assert(s.subrange(0, first)[i] == s[i]);
        }
        lemma_values_of_absent(s.subrange(0, first), full);
        assert(byte_strings(output_keys@) =~= Seq::<Seq<u8>>::empty());
    }
    loop
        invariant_except_break
            tx.wf(),
            tx.has_database(db),
            s == tx.entries(db),
            sorted(s),
            full == prefixed(prefix, join_key@),
            partition.prefix == prefix,
            cursor.db == db,
            0 <= first <= cursor.pos < s.len(),
            s[first].0 == full,
            has_prefix(prefix, s[cursor.pos as int].0),
            byte_strings(output_keys@) == values_of(s.subrange(0, cursor.pos as int), full),
        ensures
            byte_strings(output_keys@) == values_of(tx.entries(db), prefixed(prefix, join_key@)),
        decreases s.len() - cursor.pos,
    {
        let ghost pos = cursor.pos as int;
        let ghost before = s.subrange(0, pos);
        let ghost behind = s.subrange(pos, s.len() as int);
        let entry = match partition.read(tx, &cursor) {
            Some(entry) => entry,
            None => {
                return Err(ExecutionError::InternalDatabaseError(StorageError::InvalidRecord));
            },
        };
        proof {
            lemma_prefixed_has_prefix(prefix, join_key@);
            lemma_has_prefix_is_prefixed(prefix, s[pos].0);
            assert(s =~= before + behind);
            lemma_values_of_concat(before, behind, full);
        }
        if !bytes_eq(entry.0.as_slice(), join_key) {
            proof {
                assert(s[pos].0 != full);
                assert forall|i: int| 0 <= i < behind.len() implies (#[trigger] behind[i]).0 != full by {
                    assert(behind[i] == s[pos + i]);
                    if s[pos + i].0 == full {
                        lemma_same_key_between(s, first, pos, pos + i);
                    }
                }
                lemma_values_of_absent(behind, full);
                assert(values_of(before, full) + values_of(behind, full) =~= values_of(before, full));
            }
            break ;
        }
        proof {
            assert(s[pos].0 == full);
            let upto = s.subrange(0, pos + 1);
            assert(upto.drop_last() =~= before);
            assert(upto.last() == s[pos]);
            assert(byte_strings(output_keys@.push(entry.1)) =~= byte_strings(output_keys@).push(entry.1@));
        }
        output_keys.push(entry.1);
        if !partition.next(tx, &mut cursor) {
            proof {
                let upto = s.subrange(0, pos + 1);
                let rest = s.subrange(pos + 1, s.len() as int);
                assert(s =~= upto + rest);
                lemma_values_of_concat(upto, rest, full);
                assert forall|i: int| 0 <= i < rest.len() implies (#[trigger] rest[i]).0 != full by {
                    assert(rest[i] == s[pos + 1 + i]);
                    assert(!has_prefix(prefix, s[pos + 1].0));
                    if s[pos + 1 + i].0 == full {
                        lemma_same_key_between(s, pos, pos + 1, pos + 1 + i);
                    }
                }
                lemma_values_of_absent(rest, full);
                assert(values_of(upto, full) + values_of(rest, full) =~= values_of(upto, full));
            }
            break ;
        }
    }
    Ok(output_keys)
}

/// What a probe of one side of a join returns.
pub open spec fn probe_result(
    records: Seq<RecordView>,
    record_is_left: bool,
    keys: Seq<Seq<u8>>,
    rows: Rows,
    result: Result<Vec<Record>, ExecutionError>,
) -> bool {
    match probe_all(records, record_is_left, keys, rows) {
        Some(found) => result matches Ok(out) && record_views(out@) == found,
        None => result matches Err(
            ExecutionError::InternalDatabaseError(StorageError::SerializationError { typ, .. }),
        ) && typ@ == "Record"@,
    }
}

/// Joins each of `records` with the rows that `reader` keeps under `keys`.
fn probe_rows(records: &Vec<Record>, record_is_left: bool, keys: &Vec<Vec<u8>>, reader: &RecordReader) -> (result:
    Result<Vec<Record>, ExecutionError>)
    requires
        reader.tx.wf(),
        is_row_database(reader.tx, reader.db),
    ensures
        probe_result(
            record_views(records@),
            record_is_left,
            byte_strings(keys@),
            reader.tx.map(reader.db),
            result,
        ),
{
    let ghost all = record_views(records@);
    let ghost ks = byte_strings(keys@);
    let ghost rows = reader.tx.map(reader.db);
    let mut result_records: Vec<Record> = Vec::new();
    let mut i: usize = 0;
    proof {
        assert(all.subrange(0, 0) =~= Seq::<RecordView>::empty());
        assert(record_views(result_records@) =~= Seq::<RecordView>::empty());
    }
    while i < records.len()
        invariant
            i <= records@.len(),
            reader.tx.wf(),
            is_row_database(reader.tx, reader.db),
            all == record_views(records@),
            ks == byte_strings(keys@),
            rows == reader.tx.map(reader.db),
            probe_all(all.subrange(0, i as int), record_is_left, ks, rows) == Some(record_views(result_records@)),
        decreases records@.len() - i,
    {
        let record = &records[i];
        let ghost done = record_views(result_records@);
        let mut j: usize = 0;
        proof {
            assert(ks.subrange(0, 0) =~= Seq::<Seq<u8>>::empty());
            assert(done + Seq::<RecordView>::empty() =~= done);
        }
        while j < keys.len()
            invariant
                j <= keys@.len(),
                i < records@.len(),
                record == records@[i as int],
                reader.tx.wf(),
                is_row_database(reader.tx, reader.db),
                all == record_views(records@),
                ks == byte_strings(keys@),
                rows == reader.tx.map(reader.db),
                probe_all(all.subrange(0, i as int), record_is_left, ks, rows) == Some(done),
                probe(record@, record_is_left, ks.subrange(0, j as int), rows) matches Some(more)
                    && record_views(result_records@) == done + more,
            decreases keys@.len() - j,
        {
            let ghost more = probe(record@, record_is_left, ks.subrange(0, j as int), rows)->Some_0;
            proof {
                let next = ks.subrange(0, j + 1);
                assert(next.drop_last() =~= ks.subrange(0, j as int));
                assert(next.last() == keys@[j as int]@);
            }
            let kept = match reader.get(keys[j].as_slice()) {
                Ok(kept) => kept,
                Err(e) => {
                    return Err(ExecutionError::InternalDatabaseError(e));
                },
            };
            if let Some(record_bytes) = kept {
                let other = match deserialize_record(record_bytes.as_slice()) {
                    Some(other) => other,
                    None => {
                        proof {
                            lemma_probe_fails(record@, record_is_left, ks, j + 1, rows);
                            let upto = all.subrange(0, i + 1);
                            assert(upto.drop_last() =~= all.subrange(0, i as int));
                            assert(upto.last() == record@);
                            lemma_probe_all_fails(all, record_is_left, ks, i + 1, rows);
                        }
                        return Err(
                            ExecutionError::InternalDatabaseError(
                                StorageError::SerializationError {
                                    typ: text("Record"),
                                    reason: text("the bytes are not the stored form of a row"),
                                },
                            ),
                        );
                    },
                };
                let mut mine = record.clone();
                let mut theirs = other;
                let join_record = if record_is_left {
                    join_records(&mut mine, &mut theirs)
                } else {
                    join_records(&mut theirs, &mut mine)
                };
                proof {
                    assert(record_views(result_records@.push(join_record)) =~= record_views(result_records@).push(
                        join_record@,
                    ));
                    assert((done + more).push(join_record@) =~= done + more.push(join_record@));
                }
                result_records.push(join_record);
            }
            j = j + 1;
        }
        proof {
            assert(ks.subrange(0, j as int) =~= ks);
            let upto = all.subrange(0, i + 1);
            assert(upto.drop_last() =~= all.subrange(0, i as int));
            assert(upto.last() == record@);
        }
        i = i + 1;
    }
    proof {
        assert(all.subrange(0, i as int) =~= all);
    }
    Ok(result_records)
}

/// Keeps the indexes of a join and probes them.
pub trait JoinExecutor {
    /// The port on which the left rows arrive.
    spec fn left_port(&self) -> PortHandle;

    /// The port on which the right rows arrive.
    spec fn right_port(&self) -> PortHandle;

    /// Joins each of `records`, rows of the left side, with the right rows
    /// that the index names for `join_key`.
    fn execute_right(
        &self,
        records: Vec<Record>,
        join_key: &[u8],
        database: &Database,
        transaction: &Transaction,
        reader: &HashMap<PortHandle, RecordReader>,
        join_tables: &HashMap<PortHandle, JoinTable>,
    ) -> (result: Result<Vec<Record>, ExecutionError>)
        requires
            transaction.wf(),
            transaction.has_database(*database),
            reader@.dom().contains(self.right_port()) ==> reader@[self.right_port()].tx.wf() && is_row_database(
                reader@[self.right_port()].tx,
                reader@[self.right_port()].db,
            ),
        ensures
            !reader@.dom().contains(self.right_port()) ==> result == Err::<Vec<Record>, ExecutionError>(
                ExecutionError::InvalidPortHandle(self.right_port()),
            ),
            reader@.dom().contains(self.right_port()) ==> probe_result(
                record_views(records@),
                true,
                values_of(
                    transaction.entries(*database),
                    prefixed(right_partition(self.right_port()), join_key@),
                ),
                reader@[self.right_port()].tx.map(reader@[self.right_port()].db),
                result,
            ),
    ;

    /// Joins each of `records`, rows of the right side, with the left rows
    /// that the index names for `join_key`.
    fn execute_left(
        &self,
        records: Vec<Record>,
        join_key: &[u8],
        database: &Database,
        transaction: &Transaction,
        reader: &HashMap<PortHandle, RecordReader>,
        join_tables: &HashMap<PortHandle, JoinTable>,
    ) -> (result: Result<Vec<Record>, ExecutionError>)
        requires
            transaction.wf(),
            transaction.has_database(*database),
            reader@.dom().contains(self.left_port()) ==> reader@[self.left_port()].tx.wf() && is_row_database(
                reader@[self.left_port()].tx,
                reader@[self.left_port()].db,
            ),
        ensures
            !reader@.dom().contains(self.left_port()) ==> result == Err::<Vec<Record>, ExecutionError>(
                ExecutionError::InvalidPortHandle(self.left_port()),
            ),
            reader@.dom().contains(self.left_port()) ==> probe_result(
                record_views(records@),
                false,
                values_of(transaction.entries(*database), prefixed(left_partition(self.left_port()), join_key@)),
                reader@[self.left_port()].tx.map(reader@[self.left_port()].db),
                result,
            ),
    ;

    /// Notes in the index of the right side that the row with primary key
    /// `value` has the join key `key`.
    fn insert_right_index(&self, key: &[u8], value: &[u8], db: &Database, txn: &mut Transaction) -> (done: Result<
        (),
        ExecutionError,
    >)
        requires
            old(txn).wf(),
        ensures
            index_inserted(right_partition(self.right_port()), key@, value@, *db, old(txn), done, final(txn)),
    ;

    /// Notes in the index of the left side that the row with primary key
    /// `value` has the join key `key`.
    fn insert_left_index(&self, key: &[u8], value: &[u8], db: &Database, txn: &mut Transaction) -> (done: Result<
        (),
        ExecutionError,
    >)
        requires
            old(txn).wf(),
        ensures
            index_inserted(left_partition(self.left_port()), key@, value@, *db, old(txn), done, final(txn)),
    ;

    /// Takes the note of `key` and `value` out of the index of the right side.
    fn delete_right_index(&self, key: &[u8], value: &[u8], db: &Database, txn: &mut Transaction) -> (done: Result<
        (),
        ExecutionError,
    >)
        requires
            old(txn).wf(),
        ensures
            index_deleted(right_partition(self.right_port()), key@, value@, *db, old(txn), done, final(txn)),
    ;

    /// Takes the note of `key` and `value` out of the index of the left side.
    fn delete_left_index(&self, key: &[u8], value: &[u8], db: &Database, txn: &mut Transaction) -> (done: Result<
        (),
        ExecutionError,
    >)
        requires
            old(txn).wf(),
        ensures
            index_deleted(left_partition(self.left_port()), key@, value@, *db, old(txn), done, final(txn)),
    ;
}

/// An insert into the partition `partition` of the index in `db` that found
/// `before` ended in `done` and left `after`.
pub open spec fn index_inserted(
    partition: u32,
    key: Seq<u8>,
    value: Seq<u8>,
    db: Database,
    before: &Transaction,
    done: Result<(), ExecutionError>,
    after: &Transaction,
) -> bool {
    &&& after.wf()
    &&& unchanged_outside(before, after, set![db])
    &&& !before.has_database(db) ==> done == Err::<(), ExecutionError>(
        ExecutionError::InternalDatabaseError(StorageError::InvalidDatabase),
    ) && *after == *before
    &&& before.has_database(db) ==> done is Ok
    &&& before.has_database(db) ==> forall|p: Pair| #[trigger]
        after.entries(db).contains(p) <==> (before.entries(db).contains(p) && (before.allows_duplicates(db) || p.0
            != prefixed(partition, key))) || p == (prefixed(partition, key), value)
}

/// A delete from the partition `partition` of the index in `db` that found
/// `before` ended in `done` and left `after`.
pub open spec fn index_deleted(
    partition: u32,
    key: Seq<u8>,
    value: Seq<u8>,
    db: Database,
    before: &Transaction,
    done: Result<(), ExecutionError>,
    after: &Transaction,
) -> bool {
    &&& after.wf()
    &&& unchanged_outside(before, after, set![db])
    &&& !before.has_database(db) ==> done == Err::<(), ExecutionError>(
        ExecutionError::InternalDatabaseError(StorageError::InvalidDatabase),
    ) && *after == *before
    &&& before.has_database(db) ==> done is Ok
    &&& before.has_database(db) ==> forall|p: Pair| #[trigger]
        after.entries(db).contains(p) <==> before.entries(db).contains(p) && !removes(
            before.allows_duplicates(db),
            prefixed(partition, key),
            Some(value),
            p,
        )
}

/// One join of two ports.
#[derive(Debug, PartialEq, Eq)]
pub struct JoinOperator {
    /// The kind of the join.
    pub _operator: JoinOperatorType,
    /// The port of the right side.
    pub right_table: PortHandle,
    /// The columns of a left row that make its join key.
    pub left_join_key_indexes: Vec<usize>,
    /// The port of the left side.
    pub left_table: PortHandle,
    /// The columns of a right row that make its join key.
    pub right_join_key_indexes: Vec<usize>,
    /// The number of the right port.
    pub left_prefix: u32,
}

impl JoinOperator {
    pub fn new(
        _operator: JoinOperatorType,
        right_table: PortHandle,
        left_join_key_indexes: Vec<usize>,
        left_table: PortHandle,
        right_join_key_indexes: Vec<usize>,
    ) -> (join: Self)
        ensures
            join._operator == _operator,
            join.right_table == right_table,
            join.left_join_key_indexes == left_join_key_indexes,
            join.left_table == left_table,
            join.right_join_key_indexes == right_join_key_indexes,
            join.left_prefix == right_table as u32,
    {
        Self {
            _operator,
            right_table,
            left_join_key_indexes,
            left_table,
            right_join_key_indexes,
            left_prefix: right_table as u32,
        }
    }

    /// The join key of a row of the left side.
    pub fn get_left_record_join_key(&self, record: &Record) -> (key: Result<Vec<u8>, TypeError>)
        ensures
            match first_missing(self.left_join_key_indexes@, record@.values.len()) {
                Some(idx) => key == Err::<Vec<u8>, TypeError>(TypeError::InvalidFieldIndex(idx)),
                None => key matches Ok(k) && k@ == composite_key(record@.values, self.left_join_key_indexes@),
            },
    {
        get_composite_key(record, self.left_join_key_indexes.as_slice())
    }

    /// The join key of a row of the right side.
    pub fn get_right_record_join_key(&self, record: &Record) -> (key: Result<Vec<u8>, TypeError>)
        ensures
            match first_missing(self.right_join_key_indexes@, record@.values.len()) {
                Some(idx) => key == Err::<Vec<u8>, TypeError>(TypeError::InvalidFieldIndex(idx)),
                None => key matches Ok(k) && k@ == composite_key(record@.values, self.right_join_key_indexes@),
            },
    {
        get_composite_key(record, self.right_join_key_indexes.as_slice())
    }

    /// The primary keys of the right rows with the join key `join_key`, in
    /// ascending order.
    pub fn get_right_join_keys(&self, join_key: &[u8], db: &Database, transaction: &Transaction) -> (keys: Result<
        Vec<Vec<u8>>,
        ExecutionError,
    >)
        requires
            transaction.wf(),
        ensures
            !transaction.has_database(*db) ==> keys == Err::<Vec<Vec<u8>>, ExecutionError>(
                ExecutionError::InternalDatabaseError(StorageError::InvalidDatabase),
            ),
            transaction.has_database(*db) ==> (keys matches Ok(found) && byte_strings(found@) == values_of(
                transaction.entries(*db),
                prefixed(right_partition(self.right_table), join_key@),
            )),
    {
        scan_partition(self.right_table as u32 | REVERSE_JOIN_FLAG, join_key, *db, transaction)
    }

    /// The primary keys of the left rows with the join key `join_key`, in
    /// ascending order.
    pub fn get_left_join_keys(&self, join_key: &[u8], db: &Database, transaction: &Transaction) -> (keys: Result<
        Vec<Vec<u8>>,
        ExecutionError,
    >)
        requires
            transaction.wf(),
        ensures
            !transaction.has_database(*db) ==> keys == Err::<Vec<Vec<u8>>, ExecutionError>(
                ExecutionError::InternalDatabaseError(StorageError::InvalidDatabase),
            ),
            transaction.has_database(*db) ==> (keys matches Ok(found) && byte_strings(found@) == values_of(
                transaction.entries(*db),
                prefixed(left_partition(self.left_table), join_key@),
            )),
    {
        scan_partition(self.left_table as u32, join_key, *db, transaction)
    }
}

impl Clone for JoinOperator {
    fn clone(&self) -> (copy: Self)
        ensures
            copy._operator == self._operator,
            copy.right_table == self.right_table,
            copy.left_table == self.left_table,
            copy.left_prefix == self.left_prefix,
            copy.left_join_key_indexes@ == self.left_join_key_indexes@,
            copy.right_join_key_indexes@ == self.right_join_key_indexes@,
    {
        Self {
            _operator: self._operator,
            right_table: self.right_table,
            left_join_key_indexes: self.left_join_key_indexes.clone(),
            left_table: self.left_table,
            right_join_key_indexes: self.right_join_key_indexes.clone(),
            left_prefix: self.left_prefix,
        }
    }
}

impl JoinExecutor for JoinOperator {
    open spec fn left_port(&self) -> PortHandle {
        self.left_table
    }

    open spec fn right_port(&self) -> PortHandle {
        self.right_table
    }

    fn execute_right(
        &self,
        records: Vec<Record>,
        join_key: &[u8],
        db: &Database,
        transaction: &Transaction,
        readers: &HashMap<PortHandle, RecordReader>,
        _join_tables: &HashMap<PortHandle, JoinTable>,
    ) -> (result: Result<Vec<Record>, ExecutionError>) {
        let reader = match readers.get(&self.right_table) {
            Some(reader) => reader,
            None => {
                return Err(ExecutionError::InvalidPortHandle(self.right_table));
            },
        };
        // the primary keys of the rows on the right side of the join
        let right_keys = match self.get_right_join_keys(join_key, db, transaction) {
            Ok(keys) => keys,
            Err(e) => {
                return Err(e);
            },
        };
        probe_rows(&records, true, &right_keys, reader)
    }

    fn execute_left(
        &self,
        records: Vec<Record>,
        join_key: &[u8],
        db: &Database,
        transaction: &Transaction,
        readers: &HashMap<PortHandle, RecordReader>,
        _join_tables: &HashMap<PortHandle, JoinTable>,
    ) -> (result: Result<Vec<Record>, ExecutionError>) {
        let reader = match readers.get(&self.left_table) {
            Some(reader) => reader,
            None => {
                return Err(ExecutionError::InvalidPortHandle(self.left_table));
            },
        };
        // the primary keys of the rows on the left side of the join
        let left_keys = match self.get_left_join_keys(join_key, db, transaction) {
            Ok(keys) => keys,
            Err(e) => {
                return Err(e);
            },
        };
        probe_rows(&records, false, &left_keys, reader)
    }

    fn insert_right_index(&self, key: &[u8], value: &[u8], db: &Database, transaction: &mut Transaction) -> (done:
        Result<(), ExecutionError>) {
        let partition = PrefixTransaction::new(self.right_table as u32 | REVERSE_JOIN_FLAG);
        match partition.put(transaction, *db, key, value) {
            Ok(()) => Ok(()),
            Err(e) => Err(ExecutionError::InternalDatabaseError(e)),
        }
    }

    fn insert_left_index(&self, key: &[u8], value: &[u8], db: &Database, transaction: &mut Transaction) -> (done:
        Result<(), ExecutionError>) {
        let partition = PrefixTransaction::new(self.left_table as u32);
        match partition.put(transaction, *db, key, value) {
            Ok(()) => Ok(()),
            Err(e) => Err(ExecutionError::InternalDatabaseError(e)),
        }
    }

    fn delete_right_index(&self, key: &[u8], value: &[u8], db: &Database, transaction: &mut Transaction) -> (done:
        Result<(), ExecutionError>) {
        let partition = PrefixTransaction::new(self.right_table as u32 | REVERSE_JOIN_FLAG);
        match partition.del(transaction, *db, key, Some(value)) {
            Ok(_) => Ok(()),
            Err(e) => Err(ExecutionError::InternalDatabaseError(e)),
        }
    }

    fn delete_left_index(&self, key: &[u8], value: &[u8], db: &Database, transaction: &mut Transaction) -> (done:
        Result<(), ExecutionError>) {
        let partition = PrefixTransaction::new(self.left_table as u32);
        match partition.del(transaction, *db, key, Some(value)) {
            Ok(_) => Ok(()),
            Err(e) => Err(ExecutionError::InternalDatabaseError(e)),
        }
    }
}

/// A delete from an index takes away the one match it names and leaves every
/// other match as it was: under the same join key every other primary key
/// stays, and under other join keys, in this and in every other partition,
/// nothing changes.
pub proof fn lemma_index_delete_is_exact(
    before: Seq<Pair>,
    after: Seq<Pair>,
    partition: u32,
    key: Seq<u8>,
    value: Seq<u8>,
    other_partition: u32,
    other_key: Seq<u8>,
    other_value: Seq<u8>,
)
    requires
        forall|p: Pair| #[trigger] after.contains(p) <==> before.contains(p) && !removes(
            true,
            prefixed(partition, key),
            Some(value),
            p,
        ),
    ensures
        !values_of(after, prefixed(partition, key)).contains(value),
        (other_partition != partition || other_key != key || other_value != value) ==> (values_of(
            after,
            prefixed(other_partition, other_key),
        ).contains(other_value) <==> values_of(before, prefixed(other_partition, other_key)).contains(other_value)),
{
    let full = prefixed(partition, key);
    let other_full = prefixed(other_partition, other_key);
    lemma_values_of_contains(after, full, value);
    lemma_values_of_contains(after, other_full, other_value);
    lemma_values_of_contains(before, other_full, other_value);
    if other_full == full {
        crate::prefix_transaction::lemma_prefixed_injective(partition, key, other_partition, other_key);
    }
    assert(removes(true, full, Some(value), (full, value)));
    assert(!after.contains((full, value)));
    if other_partition != partition || other_key != key || other_value != value {
        assert(!removes(true, full, Some(value), (other_full, other_value)));
    }
}

/// An insert into an index adds the one match it names and changes no other.
pub proof fn lemma_index_insert_is_exact(
    before: Seq<Pair>,
    after: Seq<Pair>,
    partition: u32,
    key: Seq<u8>,
    value: Seq<u8>,
    other_partition: u32,
    other_key: Seq<u8>,
    other_value: Seq<u8>,
)
    requires
        forall|p: Pair| #[trigger] after.contains(p) <==> before.contains(p) || p == (prefixed(partition, key), value),
    ensures
        values_of(after, prefixed(partition, key)).contains(value),
        (other_partition != partition || other_key != key || other_value != value) ==> (values_of(
            after,
            prefixed(other_partition, other_key),
        ).contains(other_value) <==> values_of(before, prefixed(other_partition, other_key)).contains(other_value)),
{
    let full = prefixed(partition, key);
    let other_full = prefixed(other_partition, other_key);
    lemma_values_of_contains(after, full, value);
    lemma_values_of_contains(after, other_full, other_value);
    lemma_values_of_contains(before, other_full, other_value);
    if other_full == full {
        crate::prefix_transaction::lemma_prefixed_injective(partition, key, other_partition, other_key);
    }
    assert(after.contains((full, value)));
}

} // verus!
