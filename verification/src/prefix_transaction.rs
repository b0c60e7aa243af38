//! Partitions of one database: every key of a partition starts with the four
//! bytes of the partition's number, so that several indexes share a database
//! without their keys meeting.

use crate::encoding::{be_bytes, lemma_be_bytes_injective, lemma_be_bytes_len, lemma_pow256_values, push_be};
use crate::errors::StorageError;
use crate::storage::{removes, unchanged_outside, Cursor, Database, Pair, Transaction};
use vstd::prelude::*;

verus! {

/// The number of bytes that a partition's number takes at the start of a key.
pub const PREFIX_LEN: usize = 4;

/// `key` as it stands in the database: behind the number of its partition.
pub open spec fn prefixed(prefix: u32, key: Seq<u8>) -> Seq<u8> {
    be_bytes(prefix as nat, 4) + key
}

/// `full` is a key of the partition `prefix`.
pub open spec fn has_prefix(prefix: u32, full: Seq<u8>) -> bool {
    full.len() >= 4 && full.subrange(0, 4) == be_bytes(prefix as nat, 4)
}

/// Keys of different partitions never meet, and within a partition different
/// keys stay different.
pub proof fn lemma_prefixed_injective(one: u32, one_key: Seq<u8>, other: u32, other_key: Seq<u8>)
    requires
        prefixed(one, one_key) == prefixed(other, other_key),
    ensures
        one == other,
        one_key == other_key,
{
    lemma_be_bytes_len(one as nat, 4);
    lemma_be_bytes_len(other as nat, 4);
    lemma_pow256_values();
    let a = prefixed(one, one_key);
    let b = prefixed(other, other_key);
    assert(a.subrange(0, 4) =~= be_bytes(one as nat, 4));
    assert(b.subrange(0, 4) =~= be_bytes(other as nat, 4));
    lemma_be_bytes_injective(one as nat, other as nat, 4);
    assert(a.subrange(4, a.len() as int) =~= one_key);
    assert(b.subrange(4, b.len() as int) =~= other_key);
}

/// A prefixed key belongs to its partition, and what follows the prefix is the key.
pub proof fn lemma_prefixed_has_prefix(prefix: u32, key: Seq<u8>)
    ensures
        has_prefix(prefix, prefixed(prefix, key)),
        prefixed(prefix, key).subrange(4, prefixed(prefix, key).len() as int) == key,
        prefixed(prefix, key).len() == key.len() + 4,
{
    lemma_be_bytes_len(prefix as nat, 4);
    let full = prefixed(prefix, key);
    assert(full.subrange(0, 4) =~= be_bytes(prefix as nat, 4));
    assert(full.subrange(4, full.len() as int) =~= key);
}

/// A key of a partition is the prefixed form of what follows its prefix.
pub proof fn lemma_has_prefix_is_prefixed(prefix: u32, full: Seq<u8>)
    requires
        has_prefix(prefix, full),
    ensures
        full == prefixed(prefix, full.subrange(4, full.len() as int)),
{
    assert(full =~= full.subrange(0, 4) + full.subrange(4, full.len() as int));
}

/// The key as it stands in the database.
pub fn prefixed_key(prefix: u32, key: &[u8]) -> (full: Vec<u8>)
    ensures
        full@ == prefixed(prefix, key@),
{
    let mut full: Vec<u8> = Vec::new();
    push_be(&mut full, prefix as u128, 4);
    full.extend_from_slice(key);
    assert(full@ =~= prefixed(prefix, key@));
    full
}

/// One partition of the databases of a transaction.
#[derive(Clone, Copy, Debug, PartialEq, Eq, Structural)]
pub struct PrefixTransaction {
    pub prefix: u32,
}

impl PrefixTransaction {
    pub fn new(prefix: u32) -> (partition: Self)
        ensures
            partition.prefix == prefix,
    {
        Self { prefix }
    }

    /// Puts `value` under `key` in this partition of `db`.
    pub fn put(&self, tx: &mut Transaction, db: Database, key: &[u8], value: &[u8]) -> (done: Result<
        (),
        StorageError,
    >)
        requires
            old(tx).wf(),
        ensures
            final(tx).wf(),
            unchanged_outside(old(tx), final(tx), set![db]),
            !old(tx).has_database(db) ==> done == Err::<(), StorageError>(StorageError::InvalidDatabase)
                && *final(tx) == *old(tx),
            old(tx).has_database(db) ==> done is Ok,
            old(tx).has_database(db) ==> forall|p: Pair| #[trigger]
                final(tx).entries(db).contains(p) <==> (old(tx).entries(db).contains(p) && (old(
                    tx,
                ).allows_duplicates(db) || p.0 != prefixed(self.prefix, key@))) || p == (
                    prefixed(self.prefix, key@),
                    value@,
                ),
    {
        let full = prefixed_key(self.prefix, key);
        tx.put(db, full.as_slice(), value)
    }

    /// The value under `key` in this partition of `db`; the least one where
    /// there are several.
    pub fn get(&self, tx: &Transaction, db: Database, key: &[u8]) -> (found: Result<Option<Vec<u8>>, StorageError>)
        requires
            tx.wf(),
        ensures
            !tx.has_database(db) ==> found == Err::<Option<Vec<u8>>, StorageError>(StorageError::InvalidDatabase),
            tx.has_database(db) ==> found is Ok,
            tx.has_database(db) ==> match found->Ok_0 {
                Some(v) => {
                    &&& tx.entries(db).contains((prefixed(self.prefix, key@), v@))
                    &&& forall|w: Seq<u8>|
                        tx.entries(db).contains((prefixed(self.prefix, key@), w)) ==> w == v@
                            || crate::order::bytes_lt(v@, w)
                },
                None => forall|w: Seq<u8>| !tx.entries(db).contains((prefixed(self.prefix, key@), w)),
            },
    {
        let full = prefixed_key(self.prefix, key);
        tx.get(db, full.as_slice())
    }

    /// Removes what this partition of `db` holds under `key`: only the pair of
    /// `key` and `value` where the database has duplicate keys and a value is
    /// given, else every value of the key.
    pub fn del(&self, tx: &mut Transaction, db: Database, key: &[u8], value: Option<&[u8]>) -> (removed: Result<
        bool,
        StorageError,
    >)
        requires
            old(tx).wf(),
        ensures
            final(tx).wf(),
            unchanged_outside(old(tx), final(tx), set![db]),
            !old(tx).has_database(db) ==> removed == Err::<bool, StorageError>(StorageError::InvalidDatabase)
                && *final(tx) == *old(tx),
            old(tx).has_database(db) ==> removed is Ok,
            old(tx).has_database(db) ==> forall|p: Pair| #[trigger]
                final(tx).entries(db).contains(p) <==> old(tx).entries(db).contains(p) && !removes(
                    old(tx).allows_duplicates(db),
                    prefixed(self.prefix, key@),
                    crate::storage::option_view(value),
                    p,
                ),
            old(tx).has_database(db) ==> (removed->Ok_0 <==> exists|p: Pair| #[trigger]
                old(tx).entries(db).contains(p) && removes(
                    old(tx).allows_duplicates(db),
                    prefixed(self.prefix, key@),
                    crate::storage::option_view(value),
                    p,
                )),
    {
        let full = prefixed_key(self.prefix, key);
        tx.del(db, full.as_slice(), value)
    }

    /// Moves the cursor to the first entry of this partition with `key` and
    /// says whether there is one.
    pub fn seek(&self, tx: &Transaction, cursor: &mut Cursor, key: &[u8]) -> (found: bool)
        requires
            tx.wf(),
            tx.has_database(old(cursor).db),
        ensures
            final(cursor).db == old(cursor).db,
            found <==> exists|w: Seq<u8>| tx.entries(old(cursor).db).contains((prefixed(self.prefix, key@), w)),
            found ==> {
                &&& final(cursor).pos < tx.entries(old(cursor).db).len()
                &&& tx.entries(old(cursor).db)[final(cursor).pos as int].0 == prefixed(self.prefix, key@)
                &&& forall|j: int| 0 <= j < final(cursor).pos ==> (#[trigger] tx.entries(old(cursor).db)[j]).0
                    != prefixed(self.prefix, key@)
            },
            !found ==> final(cursor).pos == old(cursor).pos,
    {
        let full = prefixed_key(self.prefix, key);
        tx.seek(cursor, full.as_slice())
    }

    /// The entry that the cursor stands on, its key without the partition's
    /// number. `None` behind the last entry and on an entry of no partition.
    pub fn read(&self, tx: &Transaction, cursor: &Cursor) -> (entry: Option<(Vec<u8>, Vec<u8>)>)
        requires
            tx.has_database(cursor.db),
        ensures
            entry is Some <==> cursor.pos < tx.entries(cursor.db).len() && tx.entries(
                cursor.db,
            )[cursor.pos as int].0.len() >= 4,
            entry matches Some((k, v)) ==> {
                let stored = tx.entries(cursor.db)[cursor.pos as int];
                k@ == stored.0.subrange(4, stored.0.len() as int) && v@ == stored.1
            },
    {
        match tx.read(cursor) {
            None => None,
            Some((full, value)) => {
                if full.len() < PREFIX_LEN {
                    return None;
                }
                let mut key: Vec<u8> = Vec::new();
                let mut i: usize = PREFIX_LEN;
                while i < full.len()
                    invariant
                        4 <= i <= full@.len(),
                        key@ == full@.subrange(4, i as int),
                    decreases full@.len() - i,
                {
                    key.push(full[i]);
                    assert(full@.subrange(4, i + 1) =~= full@.subrange(4, i as int).push(full@[i as int]));
                    i = i + 1;
                }
                Some((key, value))
            },
        }
    }

    /// Moves the cursor to the next entry and says whether it stands on an
    /// entry of this partition then. On the last entry the cursor stays.
    pub fn next(&self, tx: &Transaction, cursor: &mut Cursor) -> (more: bool)
        requires
            tx.has_database(old(cursor).db),
        ensures
            final(cursor).db == old(cursor).db,
            old(cursor).pos + 1 < tx.entries(old(cursor).db).len() ==> final(cursor).pos == old(cursor).pos + 1,
            old(cursor).pos + 1 >= tx.entries(old(cursor).db).len() ==> final(cursor).pos == old(cursor).pos && !more,
            more <==> old(cursor).pos + 1 < tx.entries(old(cursor).db).len() && has_prefix(
                self.prefix,
                tx.entries(old(cursor).db)[old(cursor).pos + 1].0,
            ),
    {
        if !tx.next(cursor) {
            return false;
        }
        match tx.read(cursor) {
            None => false,
            Some((full, _)) => starts_with_prefix(full.as_slice(), self.prefix),
        }
    }
}

/// Whether `full` is a key of the partition `prefix`.
pub fn starts_with_prefix(full: &[u8], prefix: u32) -> (starts: bool)
    ensures
        starts == has_prefix(prefix, full@),
{
    if full.len() < PREFIX_LEN {
        return false;
    }
    let mut expected: Vec<u8> = Vec::new();
    push_be(&mut expected, prefix as u128, 4);
    proof {
        lemma_be_bytes_len(prefix as nat, 4);
        assert(expected@ =~= be_bytes(prefix as nat, 4));
    }
    let mut i: usize = 0;
    while i < PREFIX_LEN
        invariant
            i <= 4,
            full@.len() >= 4,
            expected@.len() == 4,
            expected@ == be_bytes(prefix as nat, 4),
            forall|k: int| 0 <= k < i ==> full@[k] == expected@[k],
        decreases 4 - i,
    {
        if full[i] != expected[i] {
            assert(full@.subrange(0, 4)[i as int] != expected@[i as int]);
            return false;
        }
        i = i + 1;
    }
    assert(full@.subrange(0, 4) =~= expected@);
    true
}

} // verus!
