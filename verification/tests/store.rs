use naive_sql::mem::{MemStorage, TransactionOptions};

fn opts() -> TransactionOptions {
    TransactionOptions { pessimistic: false, no_timestamp: false }
}

#[test]
fn staged_writes_stay_private_until_commit() {
    let mut storage = MemStorage::new();
    let mut txn = storage.new_transaction(&opts());
    txn.put(b"a", b"1").unwrap();
    // The writer reads its own staged value.
    assert_eq!(txn.get(&storage, b"a").unwrap(), Some(b"1".to_vec()));
    // A snapshot read outside the transaction sees nothing yet.
    assert_eq!(storage.get(b"a").unwrap(), None);
    txn.commit(&mut storage).unwrap();
    assert_eq!(storage.get(b"a").unwrap(), Some(b"1".to_vec()));
}

#[test]
fn staged_delete_hides_committed_value() {
    let mut storage = MemStorage::new();
    let mut txn = storage.new_transaction(&opts());
    txn.put(b"a", b"1").unwrap();
    txn.commit(&mut storage).unwrap();
    let mut txn2 = storage.new_transaction(&opts());
    txn2.delete(b"a").unwrap();
    assert_eq!(txn2.get(&storage, b"a").unwrap(), None);
    txn2.commit(&mut storage).unwrap();
    assert_eq!(storage.get(b"a").unwrap(), None);
}

#[test]
fn restaging_overwrites_in_cache() {
    let mut storage = MemStorage::new();
    let mut txn = storage.new_transaction(&opts());
    txn.put(b"a", b"1").unwrap();
    txn.put(b"a", b"2").unwrap();
    assert_eq!(txn.get(&storage, b"a").unwrap(), Some(b"2".to_vec()));
    txn.commit(&mut storage).unwrap();
    assert_eq!(storage.get(b"a").unwrap(), Some(b"2".to_vec()));
    assert_eq!(txn.get_start_time(), 1);
}

#[test]
fn last_writer_wins_without_conflict_detection() {
    // Two transactions write the same key; commits append versions
    // unconditionally and the newer version is read back.
    let mut storage = MemStorage::new();
    let mut t1 = storage.new_transaction(&opts());
    let mut t2 = storage.new_transaction(&opts());
    t1.put(b"a", b"1").unwrap();
    t2.put(b"a", b"2").unwrap();
    t1.commit(&mut storage).unwrap();
    t2.commit(&mut storage).unwrap();
    assert_eq!(storage.get(b"a").unwrap(), Some(b"2".to_vec()));
}
