//! An in-memory transactional key-value store.
//!
//! A transaction holds a number of databases. Each database keeps its entries
//! in ascending order of key, then value. A database either holds one value
//! per key, or, when opened with duplicate keys, a set of values per key.

use crate::errors::StorageError;
use crate::order::{
    bytes_lt, compare_bytes, lemma_bytes_lt_asymmetric, lemma_bytes_lt_irreflexive,
    lemma_bytes_lt_total, lemma_bytes_lt_transitive, ByteOrder,
};
use crate::types::clone_bytes;
use vstd::prelude::*;

verus! {

/// A key with a value, as mathematical byte strings.
pub type Pair = (Seq<u8>, Seq<u8>);

/// `a` comes before `b`: by key, and by value where the keys are the same.
pub open spec fn pair_lt(a: Pair, b: Pair) -> bool {
    bytes_lt(a.0, b.0) || (a.0 == b.0 && bytes_lt(a.1, b.1))
}

/// The entries stand in strictly ascending order.
pub open spec fn sorted(s: Seq<Pair>) -> bool {
    forall|i: int, j: int| 0 <= i < j < s.len() ==> pair_lt(#[trigger] s[i], #[trigger] s[j])
}

/// No two entries have the same key.
pub open spec fn unique_keys(s: Seq<Pair>) -> bool {
    forall|i: int, j: int| 0 <= i < j < s.len() ==> (#[trigger] s[i]).0 != (#[trigger] s[j]).0
}

/// The values that the entries hold under `key`, in the order of the entries.
pub open spec fn values_of(s: Seq<Pair>, key: Seq<u8>) -> Seq<Seq<u8>>
    decreases s.len(),
{
    if s.len() == 0 {
        Seq::empty()
    } else {
        let front = values_of(s.drop_last(), key);
        if s.last().0 == key {
            front.push(s.last().1)
        } else {
            front
        }
    }
}

/// The key-to-value map that the entries of a database without duplicate keys stand for.
pub open spec fn map_of(s: Seq<Pair>) -> Map<Seq<u8>, Seq<u8>> {
    Map::new(
        |k: Seq<u8>| exists|v: Seq<u8>| s.contains((k, v)),
        |k: Seq<u8>| choose|v: Seq<u8>| s.contains((k, v)),
    )
}

/// The order of entries is transitive.
pub proof fn lemma_pair_lt_transitive(a: Pair, b: Pair, c: Pair)
    requires
        pair_lt(a, b),
        pair_lt(b, c),
    ensures
        pair_lt(a, c),
{
    lemma_bytes_lt_irreflexive(a.0);
    lemma_bytes_lt_irreflexive(b.0);
    if bytes_lt(a.0, b.0) && bytes_lt(b.0, c.0) {
        lemma_bytes_lt_transitive(a.0, b.0, c.0);
    }
    if a.0 == b.0 && b.0 == c.0 {
        lemma_bytes_lt_transitive(a.1, b.1, c.1);
    }
}

/// Of two different entries exactly one comes before the other.
pub proof fn lemma_pair_lt_total(a: Pair, b: Pair)
    ensures
        a == b || pair_lt(a, b) || pair_lt(b, a),
        !(pair_lt(a, b) && pair_lt(b, a)),
        pair_lt(a, b) ==> a != b,
{
    lemma_bytes_lt_total(a.0, b.0);
    lemma_bytes_lt_total(a.1, b.1);
    if bytes_lt(a.0, b.0) {
        lemma_bytes_lt_asymmetric(a.0, b.0);
    }
    if bytes_lt(b.0, a.0) {
        lemma_bytes_lt_asymmetric(b.0, a.0);
    }
    if bytes_lt(a.1, b.1) {
        lemma_bytes_lt_asymmetric(a.1, b.1);
    }
    if bytes_lt(b.1, a.1) {
        lemma_bytes_lt_asymmetric(b.1, a.1);
    }
}

/// In sorted entries, the entries of one key stand together.
pub proof fn lemma_same_key_between(s: Seq<Pair>, i: int, m: int, j: int)
    requires
        sorted(s),
        0 <= i <= m <= j < s.len(),
        s[i].0 == s[j].0,
    ensures
        s[m].0 == s[i].0,
{
    if i < m && m < j {
        lemma_pair_lt_total(s[i], s[m]);
        lemma_pair_lt_total(s[m], s[j]);
        if bytes_lt(s[i].0, s[m].0) {
            if bytes_lt(s[m].0, s[j].0) {
                lemma_bytes_lt_transitive(s[i].0, s[m].0, s[j].0);
            }
            lemma_bytes_lt_irreflexive(s[i].0);
        }
    }
}

/// Where no entry has the key, there are no values under it.
pub proof fn lemma_values_of_absent(s: Seq<Pair>, key: Seq<u8>)
    requires
        forall|i: int| 0 <= i < s.len() ==> (#[trigger] s[i]).0 != key,
    ensures
        values_of(s, key) == Seq::<Seq<u8>>::empty(),
    decreases s.len(),
{
    if s.len() > 0 {
        assert forall|i: int| 0 <= i < s.drop_last().len() implies (#[trigger] s.drop_last()[i]).0 != key by {
            assert(s.drop_last()[i] == s[i]);
        }
        lemma_values_of_absent(s.drop_last(), key);
        assert(s.last() == s[s.len() - 1]);
    }
}

/// The values under a key in two runs of entries, one after the other.
pub proof fn lemma_values_of_concat(a: Seq<Pair>, b: Seq<Pair>, key: Seq<u8>)
    ensures
        values_of(a + b, key) == values_of(a, key) + values_of(b, key),
    decreases b.len(),
{
    if b.len() == 0 {
        assert(a + b =~= a);
        assert(values_of(a, key) + values_of(b, key) =~= values_of(a, key));
    } else {
        let front = b.drop_last();
        lemma_values_of_concat(a, front, key);
        assert((a + b).drop_last() =~= a + front);
        assert((a + b).last() == b.last());
        if b.last().0 == key {
            assert((values_of(a, key) + values_of(front, key)).push(b.last().1) =~= values_of(a, key)
                + values_of(front, key).push(b.last().1));
        }
    }
}

/// A value stands under a key exactly where the entries hold that pair.
pub proof fn lemma_values_of_contains(s: Seq<Pair>, key: Seq<u8>, value: Seq<u8>)
    ensures
        values_of(s, key).contains(value) <==> s.contains((key, value)),
    decreases s.len(),
{
    if s.len() > 0 {
        let front = s.drop_last();
        lemma_values_of_contains(front, key, value);
        let vs = values_of(front, key);
        if s.contains((key, value)) {
            let i = choose|i: int| 0 <= i < s.len() && s[i] == (key, value);
            if i < s.len() - 1 {
                assert(front[i] == (key, value));
                let k = choose|k: int| 0 <= k < vs.len() && vs[k] == value;
                assert(values_of(s, key)[k] == value);
            } else {
                assert(vs.push(value)[vs.len() as int] == value);
            }
        }
        if values_of(s, key).contains(value) {
            let k = choose|k: int| 0 <= k < values_of(s, key).len() && values_of(s, key)[k] == value;
            if s.last().0 == key && k == vs.len() {
                assert(s[s.len() - 1] == (key, value));
            } else {
                assert(vs[k] == value);
                let i = choose|i: int| 0 <= i < front.len() && front[i] == (key, value);
                assert(s[i] == (key, value));
            }
        }
    }
}

/// In sorted entries the values under a key stand in strictly ascending order.
pub proof fn lemma_values_of_ascending(s: Seq<Pair>, key: Seq<u8>, i: int, j: int)
    requires
        sorted(s),
        0 <= i < j < values_of(s, key).len(),
    ensures
        bytes_lt(values_of(s, key)[i], values_of(s, key)[j]),
    decreases s.len(),
{
    if s.len() > 0 {
        let front = s.drop_last();
        let vs = values_of(front, key);
        assert forall|a: int, b: int| 0 <= a < b < front.len() implies pair_lt(#[trigger] front[a], #[trigger] front[b]) by {
            assert(front[a] == s[a] && front[b] == s[b]);
        }
        if j < vs.len() {
            lemma_values_of_ascending(front, key, i, j);
        } else {
            // the last entry has the key, and its value is the last of the values
            lemma_values_of_contains(front, key, vs[i]);
            assert(vs.contains(vs[i]));
            let k = choose|k: int| 0 <= k < front.len() && front[k] == (key, vs[i]);
            assert(pair_lt(s[k], s[s.len() - 1]));
            lemma_bytes_lt_irreflexive(key);
        }
    }
}

/// One entry of a database.
#[derive(Debug)]
pub struct Entry {
    pub key: Vec<u8>,
    pub value: Vec<u8>,
}

/// The entries as mathematical pairs.
pub open spec fn entry_pairs(entries: Seq<Entry>) -> Seq<Pair> {
    Seq::new(entries.len(), |i: int| (entries[i].key@, entries[i].value@))
}

/// One database: its entries in ascending order.
#[derive(Debug)]
pub struct Store {
    pub dup_keys: bool,
    pub entries: Vec<Entry>,
}

impl Store {
    /// The entries are sorted, and keys are unique unless duplicates are allowed.
    pub open spec fn wf(&self) -> bool {
        &&& sorted(entry_pairs(self.entries@))
        &&& !self.dup_keys ==> unique_keys(entry_pairs(self.entries@))
    }
}

/// The handle of one database of a transaction.
#[derive(Clone, Copy, Debug, PartialEq, Eq, Structural)]
pub struct Database {
    pub id: usize,
}

/// A place among the entries of one database.
#[derive(Clone, Copy, Debug, PartialEq, Eq, Structural)]
pub struct Cursor {
    pub db: Database,
    pub pos: usize,
}

/// A set of databases that are read and written together.
#[derive(Debug)]
pub struct Transaction {
    stores: Vec<Store>,
}

/// The entry comes before the place of `key` (and of `value`, where one is given).
pub open spec fn comes_before(p: Pair, key: Seq<u8>, value: Option<Seq<u8>>) -> bool {
    bytes_lt(p.0, key) || (value matches Some(v) && p.0 == key && bytes_lt(p.1, v))
}

/// The first place whose entry does not come before `key` (and `value`).
fn lower_bound(entries: &Vec<Entry>, key: &[u8], value: Option<&[u8]>) -> (pos: usize)
    ensures
        pos <= entries@.len(),
        forall|j: int| 0 <= j < pos ==> comes_before(#[trigger] entry_pairs(entries@)[j], key@, option_view(value)),
        pos < entries@.len() ==> !comes_before(entry_pairs(entries@)[pos as int], key@, option_view(value)),
{
    let mut pos: usize = 0;
    while pos < entries.len()
        invariant
            pos <= entries@.len(),
            forall|j: int| 0 <= j < pos ==> comes_before(#[trigger] entry_pairs(entries@)[j], key@, option_view(value)),
        decreases entries@.len() - pos,
    {
        let by_key = compare_bytes(entries[pos].key.as_slice(), key);
        let before = match by_key {
            ByteOrder::Before => true,
            ByteOrder::After => false,
            ByteOrder::Same => match value {
                None => false,
                Some(v) => match compare_bytes(entries[pos].value.as_slice(), v) {
                    ByteOrder::Before => true,
                    _ => false,
                },
            },
        };
        proof {
            lemma_bytes_lt_irreflexive(key@);
            if by_key == ByteOrder::After {
                lemma_bytes_lt_asymmetric(key@, entries@[pos as int].key@);
            }
        }
        if !before {
            return pos;
        }
        pos = pos + 1;
    }
    pos
}

/// The bytes of an optional byte string.
pub open spec fn option_view(value: Option<&[u8]>) -> Option<Seq<u8>> {
    match value {
        Some(v) => Some(v@),
        None => None,
    }
}

proof fn lemma_insert_keeps_order(s: Seq<Pair>, pos: int, x: Pair)
    requires
        sorted(s),
        0 <= pos <= s.len(),
        forall|j: int| 0 <= j < pos ==> pair_lt(#[trigger] s[j], x),
        pos < s.len() ==> pair_lt(x, s[pos]),
    ensures
        sorted(s.insert(pos, x)),
        forall|p: Pair| s.insert(pos, x).contains(p) <==> s.contains(p) || p == x,
{
    let t = s.insert(pos, x);
    assert forall|i: int, j: int| 0 <= i < j < t.len() implies pair_lt(#[trigger] t[i], #[trigger] t[j]) by {
        if j == pos {
            assert(t[i] == s[i]);
        } else if i == pos {
            assert(t[j] == s[j - 1]);
            if j - 1 > pos {
                lemma_pair_lt_transitive(x, s[pos], s[j - 1]);
            }
        } else {
            let si = if i < pos { i } else { i - 1 };
            let sj = if j < pos { j } else { j - 1 };
            assert(t[i] == s[si] && t[j] == s[sj]);
        }
    }
    assert forall|p: Pair| t.contains(p) <==> s.contains(p) || p == x by {
        if t.contains(p) {
            let i = choose|i: int| 0 <= i < t.len() && t[i] == p;
            if i < pos {
                assert(s[i] == p);
            } else if i > pos {
                assert(s[i - 1] == p);
            }
        }
        if s.contains(p) {
            let i = choose|i: int| 0 <= i < s.len() && s[i] == p;
            if i < pos {
                assert(t[i] == p);
            } else {
                assert(t[i + 1] == p);
            }
        }
        if p == x {
            assert(t[pos] == p);
        }
    }
}

proof fn lemma_remove_keeps_order(s: Seq<Pair>, pos: int)
    requires
        sorted(s),
        0 <= pos < s.len(),
    ensures
        sorted(s.remove(pos)),
        forall|p: Pair| s.remove(pos).contains(p) <==> s.contains(p) && p != s[pos],
{
    let t = s.remove(pos);
    assert forall|i: int, j: int| 0 <= i < j < t.len() implies pair_lt(#[trigger] t[i], #[trigger] t[j]) by {
        let si = if i < pos { i } else { i + 1 };
        let sj = if j < pos { j } else { j + 1 };
        assert(t[i] == s[si] && t[j] == s[sj]);
    }
    assert forall|p: Pair| t.contains(p) <==> s.contains(p) && p != s[pos] by {
        if t.contains(p) {
            let i = choose|i: int| 0 <= i < t.len() && t[i] == p;
            let si = if i < pos { i } else { i + 1 };
            assert(s[si] == p);
            if si < pos {
                lemma_pair_lt_total(s[si], s[pos]);
            } else {
                lemma_pair_lt_total(s[pos], s[si]);
            }
        }
        if s.contains(p) && p != s[pos] {
            let i = choose|i: int| 0 <= i < s.len() && s[i] == p;
            if i < pos {
                assert(t[i] == p);
            } else {
                assert(t[i - 1] == p);
            }
        }
    }
}

proof fn lemma_update_keeps_order(s: Seq<Pair>, pos: int, value: Seq<u8>)
    requires
        sorted(s),
        unique_keys(s),
        0 <= pos < s.len(),
    ensures
        sorted(s.update(pos, (s[pos].0, value))),
        unique_keys(s.update(pos, (s[pos].0, value))),
        forall|p: Pair| s.update(pos, (s[pos].0, value)).contains(p) <==> (s.contains(p) && p.0 != s[pos].0) || p
            == (s[pos].0, value),
{
    let x = (s[pos].0, value);
    let t = s.update(pos, x);
    assert forall|i: int, j: int| 0 <= i < j < t.len() implies pair_lt(#[trigger] t[i], #[trigger] t[j]) by {
        assert(pair_lt(s[i], s[j]));
        assert(s[i].0 != s[j].0);
    }
    assert forall|i: int, j: int| 0 <= i < j < t.len() implies (#[trigger] t[i]).0 != (#[trigger] t[j]).0 by {
        assert(s[i].0 != s[j].0);
    }
    assert forall|p: Pair| t.contains(p) <==> (s.contains(p) && p.0 != s[pos].0) || p == x by {
        if t.contains(p) {
            let i = choose|i: int| 0 <= i < t.len() && t[i] == p;
            if i != pos {
                assert(s[i] == p);
                if i < pos {
                    assert(s[i].0 != s[pos].0);
                } else {
                    assert(s[pos].0 != s[i].0);
                }
            }
        }
        if s.contains(p) && p.0 != s[pos].0 {
            let i = choose|i: int| 0 <= i < s.len() && s[i] == p;
            assert(t[i] == p);
        }
        if p == x {
            assert(t[pos] == p);
        }
    }
}

/// In sorted entries, everything from a place on stands behind what comes
/// before that place.
proof fn lemma_after_lower_bound(s: Seq<Pair>, pos: int, key: Seq<u8>, value: Option<Seq<u8>>, j: int)
    requires
        sorted(s),
        0 <= pos <= j < s.len(),
        !comes_before(s[pos], key, value),
    ensures
        !comes_before(s[j], key, value),
{
    if pos < j {
        assert(pair_lt(s[pos], s[j]));
        lemma_bytes_lt_total(s[pos].0, key);
        lemma_bytes_lt_total(s[j].0, key);
        if bytes_lt(s[j].0, key) {
            if bytes_lt(s[pos].0, s[j].0) {
                lemma_bytes_lt_transitive(s[pos].0, s[j].0, key);
            }
        } else if let Some(v) = value {
            if s[j].0 == key && bytes_lt(s[j].1, v) {
                if bytes_lt(s[pos].0, s[j].0) {
                } else {
                    lemma_bytes_lt_transitive(s[pos].1, s[j].1, v);
                }
            }
        }
    }
}

/// Under unique keys, a map after `put` is the old map with the key set.
proof fn lemma_map_of_put(old_s: Seq<Pair>, new_s: Seq<Pair>, key: Seq<u8>, value: Seq<u8>)
    requires
        sorted(old_s),
        unique_keys(old_s),
        sorted(new_s),
        unique_keys(new_s),
        forall|p: Pair| new_s.contains(p) <==> (old_s.contains(p) && p.0 != key) || p == (key, value),
    ensures
        map_of(new_s) == map_of(old_s).insert(key, value),
{
    let m1 = map_of(new_s);
    let m2 = map_of(old_s).insert(key, value);
    assert forall|k: Seq<u8>| m1.dom().contains(k) <==> m2.dom().contains(k) by {
        if m1.dom().contains(k) {
            let v = choose|v: Seq<u8>| new_s.contains((k, v));
            if k != key {
                assert(old_s.contains((k, v)));
            }
        }
        if m2.dom().contains(k) {
            if k == key {
                assert(new_s.contains((key, value)));
            } else {
                let v = choose|v: Seq<u8>| old_s.contains((k, v));
                assert(new_s.contains((k, v)));
            }
        }
    }
    assert forall|k: Seq<u8>| m1.dom().contains(k) implies m1[k] == m2[k] by {
        let v1 = choose|v: Seq<u8>| new_s.contains((k, v));
        assert(new_s.contains((k, v1)));
        if k == key {
            lemma_unique_value(new_s, k, v1, value);
        } else {
            let v2 = choose|v: Seq<u8>| old_s.contains((k, v));
            assert(old_s.contains((k, v1)));
            assert(old_s.contains((k, v2)));
            lemma_unique_value(old_s, k, v1, v2);
        }
    }
    assert(m1 =~= m2);
}

/// Under unique keys, a map after the removal of a key is the old map without it.
proof fn lemma_map_of_remove(old_s: Seq<Pair>, new_s: Seq<Pair>, key: Seq<u8>)
    requires
        unique_keys(old_s),
        unique_keys(new_s),
        forall|p: Pair| new_s.contains(p) <==> old_s.contains(p) && p.0 != key,
    ensures
        map_of(new_s) == map_of(old_s).remove(key),
{
    let m1 = map_of(new_s);
    let m2 = map_of(old_s).remove(key);
    assert forall|k: Seq<u8>| m1.dom().contains(k) <==> m2.dom().contains(k) by {
        if m1.dom().contains(k) {
            let v = choose|v: Seq<u8>| new_s.contains((k, v));
            assert(old_s.contains((k, v)));
        }
        if m2.dom().contains(k) {
            let v = choose|v: Seq<u8>| old_s.contains((k, v));
            assert(new_s.contains((k, v)));
        }
    }
    assert forall|k: Seq<u8>| m1.dom().contains(k) implies m1[k] == m2[k] by {
        let v1 = choose|v: Seq<u8>| new_s.contains((k, v));
        let v2 = choose|v: Seq<u8>| old_s.contains((k, v));
        assert(old_s.contains((k, v1)));
        assert(old_s.contains((k, v2)));
        lemma_unique_value(old_s, k, v1, v2);
    }
    assert(m1 =~= m2);
}

/// Under unique keys a key has one value.
pub proof fn lemma_unique_value(s: Seq<Pair>, key: Seq<u8>, a: Seq<u8>, b: Seq<u8>)
    requires
        unique_keys(s),
        s.contains((key, a)),
        s.contains((key, b)),
    ensures
        a == b,
{
    let i = choose|i: int| 0 <= i < s.len() && s[i] == (key, a);
    let j = choose|j: int| 0 <= j < s.len() && s[j] == (key, b);
    if i < j {
        assert(s[i].0 != s[j].0);
    } else if j < i {
        assert(s[j].0 != s[i].0);
    }
}

impl Transaction {
    /// Every database keeps its entries sorted, and its keys unique unless it
    /// allows duplicates.
    pub closed spec fn wf(&self) -> bool {
        forall|d: int| 0 <= d < self.stores@.len() ==> (#[trigger] self.stores@[d]).wf()
    }

    /// The number of databases.
    pub closed spec fn database_count(&self) -> nat {
        self.stores@.len()
    }

    /// Whether `db` is a database of this transaction.
    pub open spec fn has_database(&self, db: Database) -> bool {
        db.id < self.database_count()
    }

    /// Whether `db` keeps several values per key.
    pub closed spec fn allows_duplicates(&self, db: Database) -> bool {
        self.stores@[db.id as int].dup_keys
    }

    /// The entries of `db`, in ascending order.
    pub closed spec fn entries(&self, db: Database) -> Seq<Pair> {
        entry_pairs(self.stores@[db.id as int].entries@)
    }

    /// The key-to-value map of a database without duplicate keys.
    pub open spec fn map(&self, db: Database) -> Map<Seq<u8>, Seq<u8>> {
        map_of(self.entries(db))
    }

    /// The entries of a database are sorted, and its keys unique unless it
    /// allows duplicates.
    pub proof fn lemma_entries_sorted(&self, db: Database)
        requires
            self.wf(),
            self.has_database(db),
        ensures
            sorted(self.entries(db)),
            !self.allows_duplicates(db) ==> unique_keys(self.entries(db)),
    {
        assert(self.stores@[db.id as int].wf());
    }

    /// A transaction without databases.
    pub fn new() -> (tx: Self)
        ensures
            tx.wf(),
            tx.database_count() == 0,
    {
        Transaction { stores: Vec::new() }
    }

    /// The number of databases.
    pub fn databases(&self) -> (count: usize)
        ensures
            count == self.database_count(),
    {
        self.stores.len()
    }

    /// Whether `db` keeps several values per key; `None` where `db` is no
    /// database of this transaction.
    pub fn has_duplicate_keys(&self, db: Database) -> (dup: Option<bool>)
        ensures
            self.has_database(db) ==> dup == Some(self.allows_duplicates(db)),
            !self.has_database(db) ==> dup is None,
    {
        if db.id < self.stores.len() {
            Some(self.stores[db.id].dup_keys)
        } else {
            None
        }
    }

    /// Adds an empty database and returns its handle.
    pub fn open_database(&mut self, dup_keys: bool) -> (db: Database)
        requires
            old(self).wf(),
        ensures
            final(self).wf(),
            db.id == old(self).database_count(),
            final(self).database_count() == old(self).database_count() + 1,
            final(self).allows_duplicates(db) == dup_keys,
            final(self).entries(db) == Seq::<Pair>::empty(),
            forall|other: Database| old(self).has_database(other) ==> final(self).entries(other) == old(self).entries(other)
                && final(self).allows_duplicates(other) == old(self).allows_duplicates(other),
    {
        let id = self.stores.len();
        self.stores.push(Store { dup_keys, entries: Vec::new() });
        let db = Database { id };
        assert(self.entries(db) =~= Seq::<Pair>::empty());
        assert forall|d: int| 0 <= d < self.stores@.len() implies (#[trigger] self.stores@[d]).wf() by {
            if d < id {
                assert(old(self).stores@[d].wf());
            }
        }
        db
    }

    /// The value under `key` in `db`; the least one where the database holds
    /// several. `InvalidDatabase` where `db` is none of this transaction.
    pub fn get(&self, db: Database, key: &[u8]) -> (found: Result<Option<Vec<u8>>, StorageError>)
        requires
            self.wf(),
        ensures
            !self.has_database(db) ==> found == Err::<Option<Vec<u8>>, StorageError>(
                StorageError::InvalidDatabase,
            ),
            self.has_database(db) ==> found is Ok,
            self.has_database(db) ==> match found->Ok_0 {
                Some(v) => {
                    &&& self.entries(db).contains((key@, v@))
                    &&& forall|w: Seq<u8>| self.entries(db).contains((key@, w)) ==> w == v@ || bytes_lt(v@, w)
                },
                None => forall|w: Seq<u8>| !self.entries(db).contains((key@, w)),
            },
            self.has_database(db) && !self.allows_duplicates(db) ==> match found->Ok_0 {
                Some(v) => self.map(db).dom().contains(key@) && self.map(db)[key@] == v@,
                None => !self.map(db).dom().contains(key@),
            },
    {
        if db.id >= self.stores.len() {
            return Err(StorageError::InvalidDatabase);
        }
        let store = &self.stores[db.id];
        let ghost s = entry_pairs(store.entries@);
        assert(store.wf());
        let pos = lower_bound(&store.entries, key, None);
        if pos < store.entries.len() {
            let same = compare_bytes(store.entries[pos].key.as_slice(), key);
            if same == ByteOrder::Same {
                let value = clone_bytes(&store.entries[pos].value);
                proof {
                    assert(s[pos as int] == (key@, value@));
                    assert(s.contains((key@, value@)));
                    assert forall|w: Seq<u8>| s.contains((key@, w)) implies w == value@ || bytes_lt(
                        value@,
                        w,
                    ) by {
                        let j = choose|j: int| 0 <= j < s.len() && s[j] == (key@, w);
                        lemma_bytes_lt_irreflexive(key@);
                        if j < pos {
                            assert(comes_before(s[j], key@, None));
                        } else if j > pos {
                            assert(pair_lt(s[pos as int], s[j]));
                        }
                    }
                    if !store.dup_keys {
                        let v1 = choose|v: Seq<u8>| s.contains((key@, v));
                        assert(s.contains((key@, v1)));
                        lemma_unique_value(s, key@, v1, value@);
                    }
                }
                return Ok(Some(value));
            }
        }
        proof {
            assert forall|w: Seq<u8>| !s.contains((key@, w)) by {
                if s.contains((key@, w)) {
                    let j = choose|j: int| 0 <= j < s.len() && s[j] == (key@, w);
                    lemma_bytes_lt_irreflexive(key@);
                    if j < pos {
                        assert(comes_before(s[j], key@, None));
                    } else {
                        lemma_after_lower_bound(s, pos as int, key@, None, j);
                        lemma_same_key_between(s, pos as int, pos as int, j);
                        if pos < j {
                            assert(pair_lt(s[pos as int], s[j]));
                            lemma_bytes_lt_total(s[pos as int].0, key@);
                            if bytes_lt(key@, s[pos as int].0) {
                                lemma_pair_lt_total(s[pos as int], s[j]);
                                if bytes_lt(s[pos as int].0, s[j].0) {
                                    lemma_bytes_lt_asymmetric(key@, s[pos as int].0);
                                }
                            }
                        }
                    }
                }
            }
        }
        Ok(None)
    }

    /// Puts `value` under `key` in `db`. A database without duplicate keys
    /// keeps the new value in place of an old one; one with duplicate keys
    /// keeps both.
    pub fn put(&mut self, db: Database, key: &[u8], value: &[u8]) -> (done: Result<(), StorageError>)
        requires
            old(self).wf(),
        ensures
            final(self).wf(),
            unchanged_outside(old(self), final(self), set![db]),
            !old(self).has_database(db) ==> done == Err::<(), StorageError>(StorageError::InvalidDatabase)
                && *final(self) == *old(self),
            old(self).has_database(db) ==> done is Ok,
            old(self).has_database(db) ==> forall|p: Pair| #[trigger]
                final(self).entries(db).contains(p) <==> (old(self).entries(db).contains(p) && (old(
                    self,
                ).allows_duplicates(db) || p.0 != key@)) || p == (key@, value@),
            old(self).has_database(db) && !old(self).allows_duplicates(db) ==> final(self).map(db) == old(self).map(
                db,
            ).insert(key@, value@),
    {
        if db.id >= self.stores.len() {
            return Err(StorageError::InvalidDatabase);
        }
        let ghost s = entry_pairs(self.stores@[db.id as int].entries@);
        let ghost x: Pair = (key@, value@);
        let dup = self.stores[db.id].dup_keys;
        assert(self.stores@[db.id as int].wf());
        let pos = if dup {
            lower_bound(&self.stores[db.id].entries, key, Some(value))
        } else {
            lower_bound(&self.stores[db.id].entries, key, None)
        };
        let len = self.stores[db.id].entries.len();
        let mut key_found = false;
        let mut pair_found = false;
        if pos < len {
            key_found = compare_bytes(self.stores[db.id].entries[pos].key.as_slice(), key) == ByteOrder::Same;
            pair_found = key_found && compare_bytes(
                self.stores[db.id].entries[pos].value.as_slice(),
                value,
            ) == ByteOrder::Same;
        }
        if dup && pair_found {
            proof {
                assert(s[pos as int] == x);
                assert(s.contains(x));
            }
        } else if !dup && key_found {
            self.stores[db.id].entries[pos].value = copy_slice(value);
            proof {
                let t = entry_pairs(self.stores@[db.id as int].entries@);
                assert(t =~= s.update(pos as int, (s[pos as int].0, value@)));
                lemma_update_keeps_order(s, pos as int, value@);
                lemma_map_of_put(s, t, key@, value@);
            }
        } else {
            self.stores[db.id].entries.insert(pos, Entry { key: copy_slice(key), value: copy_slice(value) });
            proof {
                let t = entry_pairs(self.stores@[db.id as int].entries@);
                assert(t =~= s.insert(pos as int, x));
                lemma_bytes_lt_irreflexive(key@);
                if pos < len {
                    lemma_pair_lt_total(x, s[pos as int]);
                    lemma_bytes_lt_total(key@, s[pos as int].0);
                }
                lemma_insert_keeps_order(s, pos as int, x);
                if !dup {
                    assert forall|j: int| 0 <= j < s.len() implies (#[trigger] s[j]).0 != key@ by {
                        if j < pos {
                            assert(comes_before(s[j], key@, None));
                        } else if j > pos {
                            assert(pair_lt(s[pos as int], s[j]));
                            assert(s[pos as int].0 != s[j].0);
                            lemma_bytes_lt_transitive(key@, s[pos as int].0, s[j].0);
                        }
                    }
                    assert forall|i: int, j: int| 0 <= i < j < t.len() implies (#[trigger] t[i]).0 != (
                    #[trigger] t[j]).0 by {
                        let si = if i < pos { i } else { i - 1 };
                        let sj = if j < pos { j } else { j - 1 };
                        if i != pos && j != pos {
                            assert(t[i] == s[si] && t[j] == s[sj]);
                        } else if i == pos {
                            assert(t[j] == s[sj]);
                        } else {
                            assert(t[i] == s[si]);
                        }
                    }
                    assert forall|p: Pair| t.contains(p) <==> (s.contains(p) && p.0 != key@) || p == x by {
                        if s.contains(p) {
                            let j = choose|j: int| 0 <= j < s.len() && s[j] == p;
                            assert(s[j].0 != key@);
                        }
                    }
                    lemma_map_of_put(s, t, key@, value@);
                }
            }
        }
        proof {
            assert forall|d: int| 0 <= d < self.stores@.len() implies (#[trigger] self.stores@[d]).wf() by {
                if d != db.id {
                    assert(old(self).stores@[d].wf());
                }
            }
        }
        Ok(())
    }

    /// Removes what `db` holds under `key`: in a database with duplicate keys
    /// only the pair of `key` and `value` where a value is given, else every
    /// value of the key. Says whether anything was removed.
    pub fn del(&mut self, db: Database, key: &[u8], value: Option<&[u8]>) -> (removed: Result<bool, StorageError>)
        requires
            old(self).wf(),
        ensures
            final(self).wf(),
            unchanged_outside(old(self), final(self), set![db]),
            !old(self).has_database(db) ==> removed == Err::<bool, StorageError>(StorageError::InvalidDatabase)
                && *final(self) == *old(self),
            old(self).has_database(db) ==> removed is Ok,
            old(self).has_database(db) ==> forall|p: Pair| #[trigger]
                final(self).entries(db).contains(p) <==> old(self).entries(db).contains(p) && !removes(
                    old(self).allows_duplicates(db),
                    key@,
                    option_view(value),
                    p,
                ),
            old(self).has_database(db) ==> (removed->Ok_0 <==> exists|p: Pair| #[trigger]
                old(self).entries(db).contains(p) && removes(
                    old(self).allows_duplicates(db),
                    key@,
                    option_view(value),
                    p,
                )),
            old(self).has_database(db) && !old(self).allows_duplicates(db) ==> final(self).map(db) == old(self).map(
                db,
            ).remove(key@),
    {
        if db.id >= self.stores.len() {
            return Err(StorageError::InvalidDatabase);
        }
        let ghost s = entry_pairs(self.stores@[db.id as int].entries@);
        let dup = self.stores[db.id].dup_keys;
        assert(self.stores@[db.id as int].wf());
        let mut removed = false;
        match value {
            Some(v) if dup => {
                let pos = lower_bound(&self.stores[db.id].entries, key, Some(v));
                let ghost x: Pair = (key@, v@);
                let mut pair_found = false;
                if pos < self.stores[db.id].entries.len() {
                    pair_found = compare_bytes(self.stores[db.id].entries[pos].key.as_slice(), key)
                        == ByteOrder::Same && compare_bytes(
                        self.stores[db.id].entries[pos].value.as_slice(),
                        v,
                    ) == ByteOrder::Same;
                }
                if pair_found {
                    self.stores[db.id].entries.remove(pos);
                    removed = true;
                    proof {
                        let t = entry_pairs(self.stores@[db.id as int].entries@);
                        assert(t =~= s.remove(pos as int));
                        lemma_remove_keeps_order(s, pos as int);
                        assert(s[pos as int] == x);
                        assert(s.contains(x) && removes(dup, key@, option_view(value), x));
                    }
                } else {
                    proof {
                        assert forall|p: Pair| s.contains(p) implies p != x by {
                            let j = choose|j: int| 0 <= j < s.len() && s[j] == p;
                            lemma_pair_lt_total(s[j], x);
                            if j < pos {
                                assert(comes_before(s[j], key@, Some(v@)));
                            } else {
                                lemma_after_lower_bound(s, pos as int, key@, Some(v@), j);
                                if j > pos {
                                    assert(pair_lt(s[pos as int], s[j]));
                                    lemma_pair_lt_total(s[pos as int], x);
                                    lemma_pair_lt_total(s[pos as int], s[j]);
                                }
                            }
                        }
                        assert forall|p: Pair| s.contains(p) implies !removes(dup, key@, option_view(value), p) by {
                            assert(p != x);
                        }
                    }
                }
            },
            _ => {
                let pos = lower_bound(&self.stores[db.id].entries, key, None);
                while pos < self.stores[db.id].entries.len() && compare_bytes(
                    self.stores[db.id].entries[pos].key.as_slice(),
                    key,
                ) == ByteOrder::Same
                    invariant
                        db.id < self.stores@.len(),
                        self.stores@.len() == old(self).stores@.len(),
                        forall|d: int| 0 <= d < self.stores@.len() && d != db.id ==> self.stores@[d] == old(
                            self,
                        ).stores@[d],
                        self.stores@[db.id as int].dup_keys == dup,
                        s == entry_pairs(old(self).stores@[db.id as int].entries@),
                        self.stores@[db.id as int].wf(),
                        pos <= self.stores@[db.id as int].entries@.len(),
                        forall|j: int| 0 <= j < pos ==> bytes_lt(
                            (#[trigger] entry_pairs(self.stores@[db.id as int].entries@)[j]).0,
                            key@,
                        ),
                        pos < self.stores@[db.id as int].entries@.len() ==> !bytes_lt(
                            entry_pairs(self.stores@[db.id as int].entries@)[pos as int].0,
                            key@,
                        ),
                        forall|p: Pair| #[trigger]
                            entry_pairs(self.stores@[db.id as int].entries@).contains(p) ==> s.contains(p),
                        forall|p: Pair| s.contains(p) && p.0 != key@ ==> #[trigger] entry_pairs(
                            self.stores@[db.id as int].entries@,
                        ).contains(p),
                        removed ==> exists|w: Seq<u8>| s.contains((key@, w)),
                        !removed ==> entry_pairs(self.stores@[db.id as int].entries@) == s,
                    decreases self.stores@[db.id as int].entries@.len() - pos,
                {
                    let ghost cur = entry_pairs(self.stores@[db.id as int].entries@);
                    self.stores[db.id].entries.remove(pos);
                    removed = true;
                    proof {
                        let t = entry_pairs(self.stores@[db.id as int].entries@);
                        assert(t =~= cur.remove(pos as int));
                        lemma_remove_keeps_order(cur, pos as int);
                        assert(cur.contains(cur[pos as int]));
                        assert(s.contains((key@, cur[pos as int].1)));
                        assert forall|i: int, j: int| 0 <= i < j < t.len() implies (#[trigger] t[i]).0 != (
                        #[trigger] t[j]).0 || dup by {
                            let si = if i < pos { i } else { i + 1 };
                            let sj = if j < pos { j } else { j + 1 };
                            assert(t[i] == cur[si] && t[j] == cur[sj]);
                        }
                        assert forall|j: int| 0 <= j < pos implies bytes_lt((#[trigger] t[j]).0, key@) by {
                            assert(t[j] == cur[j]);
                        }
                        assert(cur[pos as int].0 == key@);
                        if pos < t.len() {
                            assert(t[pos as int] == cur[pos + 1]);
                            assert(pair_lt(cur[pos as int], cur[pos + 1]));
                            lemma_pair_lt_total(cur[pos as int], cur[pos + 1]);
                            if bytes_lt(key@, t[pos as int].0) {
                                lemma_bytes_lt_asymmetric(key@, t[pos as int].0);
                            } else {
                                lemma_bytes_lt_irreflexive(key@);
                            }
                        }
                        assert forall|p: Pair| #[trigger] t.contains(p) implies s.contains(p) by {
                            assert(cur.contains(p));
                        }
                        assert forall|p: Pair| s.contains(p) && p.0 != key@ implies #[trigger] t.contains(p) by {
                            assert(cur.contains(p));
                            assert(p != cur[pos as int]);
                        }
                    }
                }
                proof {
                    let t = entry_pairs(self.stores@[db.id as int].entries@);
                    lemma_bytes_lt_irreflexive(key@);
                    assert forall|j: int| 0 <= j < t.len() implies (#[trigger] t[j]).0 != key@ by {
                        if j > pos {
                            lemma_after_lower_bound_key(t, pos as int, key@, j);
                        }
                    }
                    assert forall|p: Pair| t.contains(p) implies p.0 != key@ by {
                        let j = choose|j: int| 0 <= j < t.len() && t[j] == p;
                        assert(t[j].0 != key@);
                    }
                    if !removed {
                        assert forall|p: Pair| s.contains(p) implies !removes(dup, key@, option_view(value), p) by {
                            assert(t.contains(p));
                        }
                    } else {
                        let w = choose|w: Seq<u8>| s.contains((key@, w));
                        assert(!(dup && value is Some));
                        assert(s.contains((key@, w)) && removes(dup, key@, option_view(value), (key@, w)));
                    }
                    if !dup {
                        lemma_map_of_remove(s, t, key@);
                    }
                }
            },
        }
        assert(s == old(self).entries(db));
        assert(dup == old(self).allows_duplicates(db));
        assert(removed <==> exists|p: Pair| #[trigger]
            old(self).entries(db).contains(p) && removes(
                old(self).allows_duplicates(db),
                key@,
                option_view(value),
                p,
            ));
        proof {
            assert forall|d: int| 0 <= d < self.stores@.len() implies (#[trigger] self.stores@[d]).wf() by {
                if d != db.id {
                    assert(old(self).stores@[d].wf());
                }
            }
        }
        Ok(removed)
    }

    /// A cursor on the first entry of `db`.
    pub fn open_cursor(&self, db: Database) -> (cursor: Result<Cursor, StorageError>)
        ensures
            self.has_database(db) ==> cursor == Ok::<Cursor, StorageError>(Cursor { db, pos: 0 }),
            !self.has_database(db) ==> cursor == Err::<Cursor, StorageError>(StorageError::InvalidDatabase),
    {
        if db.id >= self.stores.len() {
            return Err(StorageError::InvalidDatabase);
        }
        Ok(Cursor { db, pos: 0 })
    }

    /// Moves the cursor to the first entry with `key` and says whether there
    /// is one. Without such an entry the cursor stays where it is.
    pub fn seek(&self, cursor: &mut Cursor, key: &[u8]) -> (found: bool)
        requires
            self.wf(),
            self.has_database(old(cursor).db),
        ensures
            final(cursor).db == old(cursor).db,
            found <==> exists|w: Seq<u8>| self.entries(old(cursor).db).contains((key@, w)),
            found ==> {
                &&& final(cursor).pos < self.entries(old(cursor).db).len()
                &&& self.entries(old(cursor).db)[final(cursor).pos as int].0 == key@
                &&& forall|j: int| 0 <= j < final(cursor).pos ==> (#[trigger] self.entries(old(cursor).db)[j]).0 != key@
            },
            !found ==> final(cursor).pos == old(cursor).pos,
    {
        let store = &self.stores[cursor.db.id];
        let ghost s = entry_pairs(store.entries@);
        assert(store.wf());
        let pos = lower_bound(&store.entries, key, None);
        proof {
            lemma_bytes_lt_irreflexive(key@);
        }
        if pos < store.entries.len() && compare_bytes(store.entries[pos].key.as_slice(), key) == ByteOrder::Same {
            cursor.pos = pos;
            proof {
                assert(s[pos as int] == (key@, s[pos as int].1));
                assert(s.contains((key@, s[pos as int].1)));
                assert(s == self.entries(cursor.db));
                assert(exists|w: Seq<u8>| self.entries(cursor.db).contains((key@, w)));
                assert forall|j: int| 0 <= j < pos implies (#[trigger] s[j]).0 != key@ by {
                    assert(comes_before(s[j], key@, None));
                }
            }
            true
        } else {
            proof {
                assert forall|w: Seq<u8>| !s.contains((key@, w)) by {
                    if s.contains((key@, w)) {
                        let j = choose|j: int| 0 <= j < s.len() && s[j] == (key@, w);
                        if j < pos {
                            assert(comes_before(s[j], key@, None));
                        } else if j > pos {
                            lemma_after_lower_bound_key(s, pos as int, key@, j);
                        }
                    }
                }
            }
            false
        }
    }

    /// The entry that the cursor stands on, or `None` behind the last one.
    pub fn read(&self, cursor: &Cursor) -> (entry: Option<(Vec<u8>, Vec<u8>)>)
        requires
            self.has_database(cursor.db),
        ensures
            cursor.pos >= self.entries(cursor.db).len() ==> entry is None,
            cursor.pos < self.entries(cursor.db).len() ==> (entry matches Some((k, v)) && (k@, v@)
                == self.entries(cursor.db)[cursor.pos as int]),
    {
        let store = &self.stores[cursor.db.id];
        if cursor.pos < store.entries.len() {
            Some((clone_bytes(&store.entries[cursor.pos].key), clone_bytes(&store.entries[cursor.pos].value)))
        } else {
            None
        }
    }

    /// Moves the cursor to the next entry and says whether there is one.
    /// On the last entry the cursor stays where it is.
    pub fn next(&self, cursor: &mut Cursor) -> (moved: bool)
        requires
            self.has_database(old(cursor).db),
        ensures
            final(cursor).db == old(cursor).db,
            moved <==> old(cursor).pos + 1 < self.entries(old(cursor).db).len(),
            moved ==> final(cursor).pos == old(cursor).pos + 1,
            !moved ==> final(cursor).pos == old(cursor).pos,
    {
        let store = &self.stores[cursor.db.id];
        if cursor.pos < store.entries.len() && cursor.pos + 1 < store.entries.len() {
            cursor.pos = cursor.pos + 1;
            true
        } else {
            false
        }
    }
}

/// Between two states of a transaction the databases are the same ones, and
/// those outside `touched` hold what they held.
pub open spec fn unchanged_outside(before: &Transaction, after: &Transaction, touched: Set<Database>) -> bool {
    &&& after.database_count() == before.database_count()
    &&& forall|other: Database| #[trigger]
        before.has_database(other) ==> {
            &&& after.allows_duplicates(other) == before.allows_duplicates(other)
            &&& !touched.contains(other) ==> after.entries(other) == before.entries(other)
        }
}

/// Whether `del` with this key and value takes the pair `p` out of a database.
pub open spec fn removes(dup_keys: bool, key: Seq<u8>, value: Option<Seq<u8>>, p: Pair) -> bool {
    p.0 == key && (dup_keys && value is Some ==> p.1 == value->Some_0)
}

/// In sorted entries, behind an entry whose key is greater than `key` no entry has `key`.
proof fn lemma_after_lower_bound_key(s: Seq<Pair>, pos: int, key: Seq<u8>, j: int)
    requires
        sorted(s),
        0 <= pos < j < s.len(),
        !bytes_lt(s[pos].0, key),
        s[pos].0 != key,
    ensures
        s[j].0 != key,
{
    lemma_bytes_lt_total(s[pos].0, key);
    assert(pair_lt(s[pos], s[j]));
    lemma_bytes_lt_asymmetric(key, s[pos].0);
    if bytes_lt(s[pos].0, s[j].0) && s[j].0 == key {
    }
}

/// A copy of a byte slice.
pub fn copy_slice(bytes: &[u8]) -> (copy: Vec<u8>)
    ensures
        copy@ == bytes@,
{
    let mut copy: Vec<u8> = Vec::new();
    copy.extend_from_slice(bytes);
    assert(copy@ =~= bytes@);
    copy
}

} // verus!
