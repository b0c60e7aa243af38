//! The committed positions of the sources, as a node keeps them in its store.
//!
//! With every commit a node notes, in the database of its own notes, the
//! position of each source at the epoch. The key of the note of a source is
//! a mark byte, the namespace of the source and its name; the value is the
//! position, request and sequence number in eight bytes each.

use crate::dag_metadata::{DagMetadata, Watermark};
use crate::dag_schemas::{NodeSchemas, NodeSchemasView};
use crate::encoding::{
    be_bytes, be_value, lemma_be_bytes_injective, lemma_be_bytes_len, lemma_be_bytes_of_value, lemma_be_round_trip,
    lemma_pow256_values, push_be, read_be,
};
use crate::epoch::{detail_views, Epoch};
use crate::errors::StorageError;
use crate::node::{NodeHandle, NodeHandleView};
use crate::record_store::{is_row_database, kept, Rows};
use crate::schema_codec::{
    deserialize_node_schemas, parse_node_schemas, serialize_node_schemas, serialized_node_schemas,
};
use crate::storage::{unchanged_outside, Database, Transaction};
use crate::types::text;
use vstd::prelude::*;
use vstd::utf8::{encode_utf8, encode_utf8_decode_utf8};

verus! {

/// The byte that marks the key of the note of a source.
pub const SOURCE_ID_IDENTIFIER: u8 = 1;

/// The byte that is the key of the schemas of the node.
pub const SCHEMAS_IDENTIFIER: u8 = 2;

/// The key of the schemas of the node.
pub open spec fn schemas_key() -> Seq<u8> {
    seq![SCHEMAS_IDENTIFIER]
}

/// The bytes of a namespace: a zero for none, else a one and the namespace
/// in two bytes.
pub open spec fn namespace_bytes(ns: Option<u16>) -> Seq<u8> {
    match ns {
        None => seq![0u8],
        Some(n) => seq![1u8] + be_bytes(n as nat, 2),
    }
}

/// The key of the note of a source.
pub open spec fn commit_key(source: NodeHandleView) -> Seq<u8> {
    seq![SOURCE_ID_IDENTIFIER] + namespace_bytes(source.ns) + encode_utf8(source.id)
}

/// The note of a position.
pub open spec fn commit_value(position: Watermark) -> Seq<u8> {
    be_bytes(position.0 as nat, 8) + be_bytes(position.1 as nat, 8)
}

/// The position that a note holds, if the bytes are a note.
pub open spec fn noted_position(value: Seq<u8>) -> Option<Watermark> {
    if value.len() == 16 {
        Some((be_value(value.subrange(0, 8)) as u64, be_value(value.subrange(8, 16)) as u64))
    } else {
        None
    }
}

/// A note is read as the position that was noted.
pub proof fn lemma_note_round_trip(position: Watermark)
    ensures
        noted_position(commit_value(position)) == Some(position),
{
    lemma_pow256_values();
    lemma_be_bytes_len(position.0 as nat, 8);
    lemma_be_bytes_len(position.1 as nat, 8);
    lemma_be_round_trip(position.0 as nat, 8);
    lemma_be_round_trip(position.1 as nat, 8);
    let value = commit_value(position);
    assert(value.subrange(0, 8) =~= be_bytes(position.0 as nat, 8));
    assert(value.subrange(8, 16) =~= be_bytes(position.1 as nat, 8));
}

/// Different sources have different keys.
pub proof fn lemma_commit_key_injective(a: NodeHandleView, b: NodeHandleView)
    requires
        commit_key(a) == commit_key(b),
    ensures
        a == b,
{
    lemma_pow256_values();
    let ka = commit_key(a);
    let kb = commit_key(b);
    let na = namespace_bytes(a.ns);
    let nb = namespace_bytes(b.ns);
    if a.ns is Some {
        lemma_be_bytes_len(a.ns->Some_0 as nat, 2);
    }
    if b.ns is Some {
        lemma_be_bytes_len(b.ns->Some_0 as nat, 2);
    }
    assert(ka[1] == na[0]);
    assert(kb[1] == nb[0]);
    assert(na.len() == nb.len());
    assert(ka.subrange(1, 1 + na.len() as int) =~= na);
    assert(kb.subrange(1, 1 + nb.len() as int) =~= nb);
    if a.ns is Some {
        assert(na.subrange(1, 3) =~= be_bytes(a.ns->Some_0 as nat, 2));
        assert(nb.subrange(1, 3) =~= be_bytes(b.ns->Some_0 as nat, 2));
        lemma_be_bytes_injective(a.ns->Some_0 as nat, b.ns->Some_0 as nat, 2);
    }
    assert(ka.subrange(1 + na.len() as int, ka.len() as int) =~= encode_utf8(a.id));
    assert(kb.subrange(1 + nb.len() as int, kb.len() as int) =~= encode_utf8(b.id));
    encode_utf8_decode_utf8(a.id);
    encode_utf8_decode_utf8(b.id);
}

/// The key of the note of `source`.
pub fn source_key(source: &NodeHandle) -> (key: Vec<u8>)
    ensures
        key@ == commit_key(source@),
{
    let mut key: Vec<u8> = Vec::new();
    key.push(SOURCE_ID_IDENTIFIER);
    match source.ns {
        None => key.push(0u8),
        Some(n) => {
            key.push(1u8);
            push_be(&mut key, n as u128, 2);
        },
    }
    key.extend_from_slice(source.id.as_str().as_bytes());
    assert(key@ =~= commit_key(source@));
    key
}

/// The notes after the positions of an epoch are noted, one after the other.
pub open spec fn notes_after(rows: Rows, details: Seq<(NodeHandleView, Watermark)>) -> Rows
    decreases details.len(),
{
    if details.len() == 0 {
        rows
    } else {
        notes_after(rows, details.drop_last()).insert(commit_key(details.last().0), commit_value(details.last().1))
    }
}

/// Notes the positions of the sources at `epoch` in the database `meta_db`.
pub fn store_commit(tx: &mut Transaction, meta_db: Database, epoch: &Epoch) -> (done: Result<(), StorageError>)
    requires
        old(tx).wf(),
        is_row_database(old(tx), meta_db),
    ensures
        final(tx).wf(),
        unchanged_outside(old(tx), final(tx), set![meta_db]),
        done is Ok,
        final(tx).map(meta_db) == notes_after(old(tx).map(meta_db), epoch@.details),
{
    let mut i: usize = 0;
    proof {
        assert(epoch@.details.subrange(0, 0) =~= Seq::<(NodeHandleView, Watermark)>::empty());
    }
    while i < epoch.details.len()
        invariant
            i <= epoch.details@.len(),
            tx.wf(),
            is_row_database(tx, meta_db),
            unchanged_outside(old(tx), tx, set![meta_db]),
            tx.map(meta_db) == notes_after(old(tx).map(meta_db), epoch@.details.subrange(0, i as int)),
        decreases epoch.details@.len() - i,
    {
        let ghost before = *tx;
        let key = source_key(&epoch.details[i].0);
        let mut value: Vec<u8> = Vec::new();
        push_be(&mut value, epoch.details[i].1.0 as u128, 8);
        push_be(&mut value, epoch.details[i].1.1 as u128, 8);
        assert(value@ =~= commit_value(epoch.details@[i as int].1));
        match tx.put(meta_db, key.as_slice(), value.as_slice()) {
            Ok(()) => {},
            Err(e) => {
                return Err(e);
            },
        }
        proof {
            let next = epoch@.details.subrange(0, i + 1);
            assert(next.drop_last() =~= epoch@.details.subrange(0, i as int));
            assert(next.last() == (epoch.details@[i as int].0@, epoch.details@[i as int].1));
            assert forall|other: Database| #[trigger] old(tx).has_database(other) implies {
                &&& tx.allows_duplicates(other) == old(tx).allows_duplicates(other)
                &&& !set![meta_db].contains(other) ==> tx.entries(other) == old(tx).entries(other)
            } by {
                assert(before.has_database(other));
            }
        }
        i = i + 1;
    }
    proof {
        assert(epoch@.details.subrange(0, i as int) =~= epoch@.details);
    }
    Ok(())
}

/// What reading the note of a source gives.
pub enum NoteRead {
    /// The position that was noted.
    Position(Watermark),
    /// No note was kept for the source.
    Nothing,
    /// What is kept under the key of the source is no note.
    Unreadable,
}

/// What `rows` holds as the note of `source`.
pub open spec fn note_of(rows: Rows, source: NodeHandleView) -> NoteRead {
    match kept(rows, commit_key(source)) {
        None => NoteRead::Nothing,
        Some(value) => match noted_position(value) {
            Some(position) => NoteRead::Position(position),
            None => NoteRead::Unreadable,
        },
    }
}

/// The position that was noted last for `source` in the database `meta_db`.
pub fn read_commit(tx: &Transaction, meta_db: Database, source: &NodeHandle) -> (position: Result<
    Option<Watermark>,
    StorageError,
>)
    requires
        tx.wf(),
        is_row_database(tx, meta_db),
    ensures
        match note_of(tx.map(meta_db), source@) {
            NoteRead::Position(noted) => position == Ok::<Option<Watermark>, StorageError>(Some(noted)),
            NoteRead::Nothing => position == Ok::<Option<Watermark>, StorageError>(None),
            NoteRead::Unreadable => position matches Err(StorageError::DeserializationError { typ, .. }) && typ@
                == "Watermark"@,
        },
{
    let key = source_key(source);
    let value = match tx.get(meta_db, key.as_slice()) {
        Ok(Some(value)) => value,
        Ok(None) => {
            return Ok(None);
        },
        Err(e) => {
            return Err(e);
        },
    };
    if value.len() != 16 {
        return Err(
            StorageError::DeserializationError {
                typ: text("Watermark"),
                reason: text("a position is kept in sixteen bytes"),
            },
        );
    }
    proof {
        lemma_pow256_values();
        lemma_be_bytes_of_value(value@.subrange(0, 8));
        lemma_be_bytes_of_value(value@.subrange(8, 16));
    }
    let request = match read_be(value.as_slice(), 0, 8) {
        Some(request) => request,
        None => 0,
    };
    let sequence = match read_be(value.as_slice(), 8, 8) {
        Some(sequence) => sequence,
        None => 0,
    };
    Ok(Some((request as u64, sequence as u64)))
}

/// The positions that were noted last for `sources`, in their order;
/// a source without a note has no entry.
pub open spec fn noted_positions(rows: Rows, sources: Seq<NodeHandle>) -> Option<Seq<(NodeHandleView, Watermark)>>
    decreases sources.len(),
{
    if sources.len() == 0 {
        Some(Seq::empty())
    } else {
        match noted_positions(rows, sources.drop_last()) {
            None => None,
            Some(front) => match note_of(rows, sources.last()@) {
                NoteRead::Position(position) => Some(front.push((sources.last()@, position))),
                NoteRead::Nothing => Some(front),
                NoteRead::Unreadable => None,
            },
        }
    }
}

proof fn lemma_noted_positions_fail(rows: Rows, sources: Seq<NodeHandle>, failing: int)
    requires
        0 <= failing <= sources.len(),
        noted_positions(rows, sources.subrange(0, failing)) is None,
    ensures
        noted_positions(rows, sources) is None,
    decreases sources.len(),
{
    if failing < sources.len() {
        assert(sources.drop_last().subrange(0, failing) =~= sources.subrange(0, failing));
        lemma_noted_positions_fail(rows, sources.drop_last(), failing);
    } else {
        assert(sources.subrange(0, failing) =~= sources);
    }
}

/// The positions that a node noted last for the sources of the graph.
pub fn read_commits(tx: &Transaction, meta_db: Database, sources: &Vec<NodeHandle>) -> (commits: Result<
    Vec<(NodeHandle, Watermark)>,
    StorageError,
>)
    requires
        tx.wf(),
        is_row_database(tx, meta_db),
    ensures
        match noted_positions(tx.map(meta_db), sources@) {
            Some(positions) => commits matches Ok(found) && detail_views(found@) == positions,
            None => commits matches Err(StorageError::DeserializationError { typ, .. }) && typ@ == "Watermark"@,
        },
{
    let mut commits: Vec<(NodeHandle, Watermark)> = Vec::new();
    let mut i: usize = 0;
    proof {
        assert(sources@.subrange(0, 0) =~= Seq::<NodeHandle>::empty());
        assert(detail_views(commits@) =~= Seq::<(NodeHandleView, Watermark)>::empty());
    }
    while i < sources.len()
        invariant
            i <= sources@.len(),
            tx.wf(),
            is_row_database(tx, meta_db),
            noted_positions(tx.map(meta_db), sources@.subrange(0, i as int)) == Some(detail_views(commits@)),
        decreases sources@.len() - i,
    {
        proof {
            let next = sources@.subrange(0, i + 1);
            assert(next.drop_last() =~= sources@.subrange(0, i as int));
            assert(next.last() == sources@[i as int]);
        }
        match read_commit(tx, meta_db, &sources[i]) {
            Ok(Some(position)) => {
                let source = sources[i].clone();
                proof {
                    assert(detail_views(commits@.push((source, position))) =~= detail_views(commits@).push(
                        (source@, position),
                    ));
                }
                commits.push((source, position));
            },
            Ok(None) => {},
            Err(e) => {
                proof {
                    lemma_noted_positions_fail(tx.map(meta_db), sources@, i + 1);
                }
                return Err(e);
            },
        }
        i = i + 1;
    }
    proof {
        assert(sources@.subrange(0, i as int) =~= sources@);
    }
    Ok(commits)
}

/// A committed position is read back: after the positions of an epoch are
/// noted, the note of the source that the epoch names last under a key is the
/// position that the epoch gives it, and the notes of sources that the epoch
/// does not name are what they were.
pub proof fn lemma_commit_is_read_back(rows: Rows, details: Seq<(NodeHandleView, Watermark)>, source: NodeHandleView)
    ensures
        (forall|i: int| 0 <= i < details.len() ==> (#[trigger] details[i]).0 != source) ==> note_of(
            notes_after(rows, details),
            source,
        ) == note_of(rows, source),
        forall|i: int|
            0 <= i < details.len() && (#[trigger] details[i]).0 == source && (forall|j: int|
                i < j < details.len() ==> (#[trigger] details[j]).0 != source) ==> note_of(
                notes_after(rows, details),
                source,
            ) == NoteRead::Position(details[i].1),
    decreases details.len(),
{
    if details.len() > 0 {
        let front = details.drop_last();
        let last = details.last();
        lemma_commit_is_read_back(rows, front, source);
        lemma_note_round_trip(last.1);
        if last.0 != source {
            if commit_key(last.0) == commit_key(source) {
                lemma_commit_key_injective(last.0, source);
            }
            assert forall|i: int|
                0 <= i < details.len() && (#[trigger] details[i]).0 == source && (forall|j: int|
                    i < j < details.len() ==> (#[trigger] details[j]).0 != source) implies note_of(
                notes_after(rows, details),
                source,
            ) == NoteRead::Position(details[i].1) by {
                assert(front[i] == details[i]);
                assert forall|j: int| i < j < front.len() implies (#[trigger] front[j]).0 != source by {
                    assert(front[j] == details[j]);
                }
            }
            if forall|i: int| 0 <= i < details.len() ==> (#[trigger] details[i]).0 != source {
                assert forall|i: int| 0 <= i < front.len() implies (#[trigger] front[i]).0 != source by {
                    assert(front[i] == details[i]);
                }
            }
        } else {
            assert(details[details.len() - 1].0 == source);
            assert forall|i: int|
                0 <= i < details.len() && (#[trigger] details[i]).0 == source && (forall|j: int|
                    i < j < details.len() ==> (#[trigger] details[j]).0 != source) implies note_of(
                notes_after(rows, details),
                source,
            ) == NoteRead::Position(details[i].1) by {
                if i < details.len() - 1 {
                    assert(details[details.len() - 1].0 != source);
                }
            }
        }
    }
}

/// The notes without those of `sources`.
pub open spec fn notes_without(rows: Rows, sources: Seq<NodeHandle>) -> Rows
    decreases sources.len(),
{
    if sources.len() == 0 {
        rows
    } else {
        notes_without(rows, sources.drop_last()).remove(commit_key(sources.last()@))
    }
}

/// Discards what the node kept, the positions of `sources` and its schemas,
/// and keeps `schemas` as its schemas.
pub fn init_metadata(tx: &mut Transaction, meta_db: Database, sources: &Vec<NodeHandle>, schemas: &NodeSchemas) -> (done:
    Result<(), StorageError>)
    requires
        old(tx).wf(),
        is_row_database(old(tx), meta_db),
    ensures
        final(tx).wf(),
        unchanged_outside(old(tx), final(tx), set![meta_db]),
        done is Ok,
        final(tx).map(meta_db) == notes_without(old(tx).map(meta_db), sources@).insert(
            schemas_key(),
            serialized_node_schemas(schemas@),
        ),
{
    let mut i: usize = 0;
    proof {
        assert(sources@.subrange(0, 0) =~= Seq::<NodeHandle>::empty());
    }
    while i < sources.len()
        invariant
            i <= sources@.len(),
            tx.wf(),
            is_row_database(tx, meta_db),
            unchanged_outside(old(tx), tx, set![meta_db]),
            tx.map(meta_db) == notes_without(old(tx).map(meta_db), sources@.subrange(0, i as int)),
        decreases sources@.len() - i,
    {
        let ghost before = *tx;
        let key = source_key(&sources[i]);
        match tx.del(meta_db, key.as_slice(), None) {
            Ok(_) => {},
            Err(e) => {
                return Err(e);
            },
        }
        proof {
            let next = sources@.subrange(0, i + 1);
            assert(next.drop_last() =~= sources@.subrange(0, i as int));
            assert(next.last() == sources@[i as int]);
            assert forall|other: Database| #[trigger] old(tx).has_database(other) implies {
                &&& tx.allows_duplicates(other) == old(tx).allows_duplicates(other)
                &&& !set![meta_db].contains(other) ==> tx.entries(other) == old(tx).entries(other)
            } by {
                assert(before.has_database(other));
            }
        }
        i = i + 1;
    }
    proof {
        assert(sources@.subrange(0, i as int) =~= sources@);
    }
    let ghost before = *tx;
    let mut key: Vec<u8> = Vec::new();
    key.push(SCHEMAS_IDENTIFIER);
    assert(key@ =~= schemas_key());
    let value = serialize_node_schemas(schemas);
    let done = tx.put(meta_db, key.as_slice(), value.as_slice());
    proof {
        assert forall|other: Database| #[trigger] old(tx).has_database(other) implies {
            &&& tx.allows_duplicates(other) == old(tx).allows_duplicates(other)
            &&& !set![meta_db].contains(other) ==> tx.entries(other) == old(tx).entries(other)
        } by {
            assert(before.has_database(other));
        }
    }
    done
}

/// What the node kept, as the rows of its notes hold it.
pub enum KeptMetadata {
    /// These schemas, and these positions of the sources.
    Kept { schemas: NodeSchemasView, commits: Seq<(NodeHandleView, Watermark)> },
    /// Nothing: the node has not run before.
    Nothing,
    /// Something that cannot be read.
    Unreadable,
}

/// What `rows` holds of an earlier run, for a graph with the sources `sources`.
pub open spec fn kept_metadata(rows: Rows, sources: Seq<NodeHandle>) -> KeptMetadata {
    match kept(rows, schemas_key()) {
        None => KeptMetadata::Nothing,
        Some(stored) => match parse_node_schemas(stored) {
            None => KeptMetadata::Unreadable,
            Some(schemas) => match noted_positions(rows, sources) {
                None => KeptMetadata::Unreadable,
                Some(commits) => KeptMetadata::Kept { schemas, commits },
            },
        },
    }
}

/// Reads what the node kept from an earlier run: its schemas and the
/// positions that it noted for `sources`. `None` where it kept nothing.
pub fn read_metadata(tx: &Transaction, meta_db: Database, sources: &Vec<NodeHandle>) -> (metadata: Result<
    Option<DagMetadata>,
    StorageError,
>)
    requires
        tx.wf(),
        is_row_database(tx, meta_db),
    ensures
        match kept_metadata(tx.map(meta_db), sources@) {
            KeptMetadata::Kept { schemas, commits } => metadata matches Ok(Some(found)) && detail_views(
                found.commits@,
            ) == commits && (NodeSchemas {
                input_schemas: found.input_schemas,
                output_schemas: found.output_schemas,
            })@ == schemas,
            KeptMetadata::Nothing => metadata matches Ok(None),
            KeptMetadata::Unreadable => metadata matches Err(StorageError::DeserializationError { .. }),
        },
{
    let mut key: Vec<u8> = Vec::new();
    key.push(SCHEMAS_IDENTIFIER);
    assert(key@ =~= schemas_key());
    let stored = match tx.get(meta_db, key.as_slice()) {
        Ok(Some(stored)) => stored,
        Ok(None) => {
            return Ok(None);
        },
        Err(e) => {
            return Err(e);
        },
    };
    let schemas = match deserialize_node_schemas(stored.as_slice()) {
        Some(schemas) => schemas,
        None => {
            return Err(
                StorageError::DeserializationError {
                    typ: text("NodeSchemas"),
                    reason: text("the bytes are not the stored form of the schemas of a node"),
                },
            );
        },
    };
    let commits = match read_commits(tx, meta_db, sources) {
        Ok(commits) => commits,
        Err(e) => {
            return Err(e);
        },
    };
    Ok(Some(DagMetadata { commits, input_schemas: schemas.input_schemas, output_schemas: schemas.output_schemas }))
}

/// The key of the schemas is the key of no source, and the keys of the
/// sources and of the schemas are not the key of the row counter.
pub proof fn lemma_keys_are_apart(source: NodeHandleView)
    ensures
        commit_key(source) != schemas_key(),
        commit_key(source) != crate::record_store::counter_key(),
        schemas_key() != crate::record_store::counter_key(),
{
    assert(commit_key(source)[0] == 1u8);
    assert(schemas_key()[0] == 2u8);
    assert(crate::record_store::counter_key()[0] == 0u8);
}

/// After the metadata of a node is written anew, what is read back are the
/// new schemas and no position for any of the sources: every source starts
/// from zero.
pub proof fn lemma_init_is_read_back(rows: Rows, sources: Seq<NodeHandle>, schemas: NodeSchemasView)
    requires
        parse_node_schemas(serialized_node_schemas(schemas)) == Some(schemas),
    ensures
        kept_metadata(notes_without(rows, sources).insert(schemas_key(), serialized_node_schemas(schemas)), sources)
            == (KeptMetadata::Kept { schemas, commits: Seq::empty() }),
{
    let cleared = notes_without(rows, sources);
    let after = cleared.insert(schemas_key(), serialized_node_schemas(schemas));
    assert forall|i: int| 0 <= i < sources.len() implies note_of(after, (#[trigger] sources[i])@) == NoteRead::Nothing by {
        lemma_keys_are_apart(sources[i]@);
        lemma_notes_without(rows, sources, i);
    }
    lemma_no_positions(after, sources);
}

proof fn lemma_notes_without(rows: Rows, sources: Seq<NodeHandle>, i: int)
    requires
        0 <= i < sources.len(),
    ensures
        !notes_without(rows, sources).dom().contains(commit_key(sources[i]@)),
    decreases sources.len(),
{
    if i < sources.len() - 1 {
        lemma_notes_without(rows, sources.drop_last(), i);
        assert(sources.drop_last()[i] == sources[i]);
    }
}

proof fn lemma_no_positions(rows: Rows, sources: Seq<NodeHandle>)
    requires
        forall|i: int| 0 <= i < sources.len() ==> note_of(rows, (#[trigger] sources[i])@) == NoteRead::Nothing,
    ensures
        noted_positions(rows, sources) == Some(Seq::<(NodeHandleView, Watermark)>::empty()),
    decreases sources.len(),
{
    if sources.len() > 0 {
        assert forall|i: int| 0 <= i < sources.drop_last().len() implies note_of(
            rows,
            (#[trigger] sources.drop_last()[i])@,
        ) == NoteRead::Nothing by {
            assert(sources.drop_last()[i] == sources[i]);
        }
        lemma_no_positions(rows, sources.drop_last());
        assert(sources.last() == sources[sources.len() - 1]);
    }
}

} // verus!
