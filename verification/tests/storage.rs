use dozer::errors::StorageError;
use dozer::order::{compare_bytes, ByteOrder};
use dozer::prefix_transaction::{prefixed_key, starts_with_prefix, PrefixTransaction};
use dozer::storage::{copy_slice, Cursor, Database, Transaction};

#[test]
fn bytes_are_ordered_lexicographically() {
    assert_eq!(compare_bytes(b"key_1", b"key_100"), ByteOrder::Before);
    assert_eq!(compare_bytes(b"key_100", b"key_2"), ByteOrder::Before);
    assert_eq!(compare_bytes(b"key_2", b"key_1"), ByteOrder::After);
    assert_eq!(compare_bytes(b"", b""), ByteOrder::Same);
    assert_eq!(compare_bytes(b"", b"a"), ByteOrder::Before);
    assert_eq!(compare_bytes(b"ab", b"ab"), ByteOrder::Same);
    assert_eq!(compare_bytes(&[0xff], &[0x00, 0x01]), ByteOrder::After);
}

#[test]
fn put_get_del_on_unique_keys() {
    let mut tx = Transaction::new();
    let db = tx.open_database(false);
    assert_eq!(tx.get(db, b"k"), Ok(None));
    assert_eq!(tx.put(db, b"k", b"v1"), Ok(()));
    assert_eq!(tx.get(db, b"k"), Ok(Some(b"v1".to_vec())));
    assert_eq!(tx.put(db, b"k", b"v2"), Ok(()));
    assert_eq!(tx.get(db, b"k"), Ok(Some(b"v2".to_vec())));
    assert_eq!(tx.put(db, b"a", b"x"), Ok(()));
    assert_eq!(tx.put(db, b"z", b"y"), Ok(()));
    assert_eq!(tx.get(db, b"a"), Ok(Some(b"x".to_vec())));
    assert_eq!(tx.del(db, b"k", None), Ok(true));
    assert_eq!(tx.del(db, b"k", None), Ok(false));
    assert_eq!(tx.get(db, b"k"), Ok(None));
    assert_eq!(tx.get(db, b"z"), Ok(Some(b"y".to_vec())));
    // a value given for a database of unique keys is not looked at
    assert_eq!(tx.del(db, b"a", Some(b"other")), Ok(true));
    assert_eq!(tx.get(db, b"a"), Ok(None));
}

#[test]
fn databases_do_not_see_each_other() {
    let mut tx = Transaction::new();
    assert_eq!(tx.databases(), 0);
    let one = tx.open_database(false);
    let two = tx.open_database(true);
    assert_ne!(one, two);
    assert_eq!(tx.databases(), 2);
    assert_eq!(tx.has_duplicate_keys(one), Some(false));
    assert_eq!(tx.has_duplicate_keys(two), Some(true));
    assert_eq!(tx.has_duplicate_keys(Database { id: 2 }), None);
    tx.put(one, b"k", b"1").unwrap();
    assert_eq!(tx.get(two, b"k"), Ok(None));
    tx.put(two, b"k", b"2").unwrap();
    assert_eq!(tx.get(one, b"k"), Ok(Some(b"1".to_vec())));
    assert_eq!(tx.del(one, b"k", None), Ok(true));
    assert_eq!(tx.get(two, b"k"), Ok(Some(b"2".to_vec())));
}

#[test]
fn unknown_database_is_an_error() {
    let mut tx = Transaction::new();
    let db = Database { id: 3 };
    assert_eq!(tx.get(db, b"k"), Err(StorageError::InvalidDatabase));
    assert_eq!(tx.put(db, b"k", b"v"), Err(StorageError::InvalidDatabase));
    assert_eq!(tx.del(db, b"k", None), Err(StorageError::InvalidDatabase));
    assert_eq!(tx.open_cursor(db), Err(StorageError::InvalidDatabase));
}

#[test]
fn duplicate_keys_keep_a_set_of_values() {
    let mut tx = Transaction::new();
    let db = tx.open_database(true);
    tx.put(db, b"k", b"b").unwrap();
    tx.put(db, b"k", b"a").unwrap();
    tx.put(db, b"k", b"b").unwrap();
    tx.put(db, b"j", b"z").unwrap();
    // the least value
    assert_eq!(tx.get(db, b"k"), Ok(Some(b"a".to_vec())));
    let mut cursor = tx.open_cursor(db).unwrap();
    let mut seen = vec![];
    while let Some(entry) = tx.read(&cursor) {
        seen.push(entry);
        if !tx.next(&mut cursor) {
            break;
        }
    }
    assert_eq!(
        seen,
        vec![
            (b"j".to_vec(), b"z".to_vec()),
            (b"k".to_vec(), b"a".to_vec()),
            (b"k".to_vec(), b"b".to_vec()),
        ]
    );
    assert_eq!(tx.del(db, b"k", Some(b"c")), Ok(false));
    assert_eq!(tx.del(db, b"k", Some(b"a")), Ok(true));
    assert_eq!(tx.get(db, b"k"), Ok(Some(b"b".to_vec())));
    tx.put(db, b"k", b"c").unwrap();
    assert_eq!(tx.del(db, b"k", None), Ok(true));
    assert_eq!(tx.get(db, b"k"), Ok(None));
    assert_eq!(tx.get(db, b"j"), Ok(Some(b"z".to_vec())));
}

#[test]
fn test_cursor_duplicate_keys() {
    let mut tx = Transaction::new();
    let db = tx.open_database(true);

    for k in 1..3 {
        for i in 'a'..'s' {
            tx.put(db, format!("key_{}", k).as_bytes(), format!("val_{}", i).as_bytes()).unwrap();
        }
    }

    let mut cursor = tx.open_cursor(db).unwrap();

    let r = tx.seek(&mut cursor, "key_100".as_bytes());
    assert!(!r);

    let r = tx.seek(&mut cursor, "key_1".as_bytes());
    assert!(r);

    for i in 'a'..='z' {
        let r = tx.read(&cursor).unwrap();
        if r.0 != "key_1".as_bytes() {
            break;
        }

        assert_eq!(r.0, "key_1".as_bytes());
        assert_eq!(r.1, format!("val_{}", i).as_bytes());
        let _r = tx.next(&mut cursor);
    }

    for i in 'a'..='z' {
        let r = tx.read(&cursor).unwrap();
        assert_eq!(r.0, "key_2".as_bytes());
        assert_eq!(r.1, format!("val_{}", i).as_bytes());
        let r = tx.next(&mut cursor);

        if !r {
            break;
        }
    }
}

#[test]
fn cursor_on_an_empty_database() {
    let mut tx = Transaction::new();
    let db = tx.open_database(false);
    let mut cursor = tx.open_cursor(db).unwrap();
    assert_eq!(cursor, Cursor { db, pos: 0 });
    assert_eq!(tx.read(&cursor), None);
    assert!(!tx.next(&mut cursor));
    assert!(!tx.seek(&mut cursor, b"k"));
    assert_eq!(cursor.pos, 0);
}

#[test]
fn partitions_share_a_database() {
    let mut tx = Transaction::new();
    let db = tx.open_database(true);
    let left = PrefixTransaction::new(7);
    let right = PrefixTransaction::new(7 | 0x8000_0000);
    assert_eq!(prefixed_key(7, b"k"), vec![0u8, 0, 0, 7, b'k']);
    assert_eq!(prefixed_key(7 | 0x8000_0000, b""), vec![0x80u8, 0, 0, 7]);
    assert!(starts_with_prefix(&[0, 0, 0, 7, 1], 7));
    assert!(!starts_with_prefix(&[0, 0, 0, 7, 1], 8));
    assert!(!starts_with_prefix(&[0, 0, 0], 0));
    left.put(&mut tx, db, b"k", b"l1").unwrap();
    left.put(&mut tx, db, b"k", b"l2").unwrap();
    right.put(&mut tx, db, b"k", b"r1").unwrap();
    assert_eq!(left.get(&tx, db, b"k"), Ok(Some(b"l1".to_vec())));
    assert_eq!(right.get(&tx, db, b"k"), Ok(Some(b"r1".to_vec())));
    assert_eq!(tx.get(db, &[0, 0, 0, 7, b'k']), Ok(Some(b"l1".to_vec())));

    let mut cursor = tx.open_cursor(db).unwrap();
    assert!(left.seek(&tx, &mut cursor, b"k"));
    assert_eq!(left.read(&tx, &cursor), Some((b"k".to_vec(), b"l1".to_vec())));
    assert!(left.next(&tx, &mut cursor));
    assert_eq!(left.read(&tx, &cursor), Some((b"k".to_vec(), b"l2".to_vec())));
    // the next entry belongs to the right partition
    assert!(!left.next(&tx, &mut cursor));
    assert_eq!(right.read(&tx, &cursor), Some((b"k".to_vec(), b"r1".to_vec())));
    assert!(!right.next(&tx, &mut cursor));

    assert_eq!(left.del(&mut tx, db, b"k", Some(b"l1")), Ok(true));
    assert_eq!(left.get(&tx, db, b"k"), Ok(Some(b"l2".to_vec())));
    assert_eq!(right.del(&mut tx, db, b"k", Some(b"l2")), Ok(false));
    assert_eq!(right.get(&tx, db, b"k"), Ok(Some(b"r1".to_vec())));
    assert!(!right.seek(&tx, &mut cursor, b"other"));
}

#[test]
fn copies_of_slices() {
    assert_eq!(copy_slice(&[1, 2, 3]), vec![1u8, 2, 3]);
    assert_eq!(copy_slice(&[]), Vec::<u8>::new());
}
