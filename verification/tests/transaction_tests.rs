use std::collections::HashMap;

use maemio::{Clock, MaemioError, RecordHead, Transaction};

fn setup_test_env() -> (Clock, HashMap<u64, RecordHead>) {
    let clock = Clock::new(0).unwrap();
    let records: HashMap<u64, RecordHead> = HashMap::new();
    (clock, records)
}

#[test]
fn test_basic_transaction() {
    let (mut clock, mut records) = setup_test_env();
    records.insert(1, RecordHead::new(0));
    let mut tx1 = Transaction::new(&mut clock, 0);
    tx1.write(&records, 1, vec![1, 2, 3]).unwrap();
    tx1.commit(&mut records, &mut clock).unwrap();
    let mut tx2 = Transaction::new(&mut clock, 0);
    let version = tx2.read(&records, 1).unwrap();
    assert_eq!(version.data, vec![1, 2, 3]);
}

#[test]
fn mod_test_concurrent_transactions() {
    let (mut clock, mut records) = setup_test_env();
    records.insert(1, RecordHead::new(0));
    let mut tx1 = Transaction::new(&mut clock, 0);
    tx1.write(&records, 1, vec![1]).unwrap();
    tx1.commit(&mut records, &mut clock).unwrap();
    let mut tx2 = Transaction::new(&mut clock, 1);
    tx2.write(&records, 1, vec![2]).unwrap();
    let result = tx2.commit(&mut records, &mut clock);
    assert!(result.is_ok());
    let mut verify_tx = Transaction::new(&mut clock, 2);
    let version = verify_tx.read(&records, 1).unwrap();
    assert_eq!(version.data, vec![2]);
}

#[test]
fn test_read_your_own_writes() {
    let (mut clock, mut records) = setup_test_env();
    records.insert(1, RecordHead::new(0));
    // Give the record a committed version holding other bytes.
    let mut tx0 = Transaction::new(&mut clock, 0);
    tx0.write(&records, 1, vec![9, 9]).unwrap();
    tx0.commit(&mut records, &mut clock).unwrap();

    let mut tx = Transaction::new(&mut clock, 0);
    tx.write(&records, 1, vec![4, 5, 6]).unwrap();
    // The read returns the transaction's own pending bytes, not the
    // committed state.
    let version = tx.read(&records, 1).unwrap();
    assert_eq!(version.data, vec![4, 5, 6]);
}

#[test]
fn test_committed_write_visible_at_own_timestamp() {
    let (mut clock, mut records) = setup_test_env();
    records.insert(1, RecordHead::new(0));
    records.insert(2, RecordHead::new(0));
    let mut tx = Transaction::new(&mut clock, 0);
    let ts = tx.get_timestamp();
    tx.write(&records, 1, vec![1]).unwrap();
    tx.write(&records, 2, vec![2]).unwrap();
    tx.commit(&mut records, &mut clock).unwrap();
    for id in [1u64, 2] {
        let visible = records.get(&id).unwrap().find_visible_version(ts).unwrap();
        assert_eq!(visible.wts, ts);
    }
}

#[test]
fn test_blind_overwrite_keeps_history() {
    let (mut clock, mut records) = setup_test_env();
    records.insert(1, RecordHead::new(0));

    let mut tx_a = Transaction::new(&mut clock, 0);
    let ts_a = tx_a.get_timestamp();
    tx_a.write(&records, 1, vec![1, 2, 3]).unwrap();
    tx_a.commit(&mut records, &mut clock).unwrap();

    let mut tx_c = Transaction::new(&mut clock, 0);
    tx_c.write(&records, 1, vec![4]).unwrap();
    tx_c.commit(&mut records, &mut clock).unwrap();

    let mut tx_d = Transaction::new(&mut clock, 0);
    assert_eq!(tx_d.read(&records, 1).unwrap().data, vec![4]);

    // The older write is still visible at the first writer's timestamp.
    let old = records.get(&1).unwrap().find_visible_version(ts_a).unwrap();
    assert_eq!(old.data, vec![1, 2, 3]);
}

#[test]
fn test_write_write_last_writer_wins() {
    let (mut clock, mut records) = setup_test_env();
    records.insert(1, RecordHead::new(0));

    // Two writers with overlapping begin-timestamp windows.
    let mut tx_a = Transaction::new(&mut clock, 0);
    let mut tx_b = Transaction::new(&mut clock, 1);
    assert!(tx_b.get_timestamp() > tx_a.get_timestamp());
    tx_a.write(&records, 1, vec![1]).unwrap();
    tx_b.write(&records, 1, vec![2]).unwrap();

    // Blind writers do not conflict with each other; the later
    // timestamp wins.
    tx_a.commit(&mut records, &mut clock).unwrap();
    tx_b.commit(&mut records, &mut clock).unwrap();

    let mut verify = Transaction::new(&mut clock, 2);
    assert_eq!(verify.read(&records, 1).unwrap().data, vec![2]);
}

#[test]
fn test_read_write_conflict_aborts_reader() {
    let (mut clock, mut records) = setup_test_env();
    records.insert(1, RecordHead::new(0));
    records.insert(2, RecordHead::new(0));

    // Seed record 1 with a committed version.
    let mut tx0 = Transaction::new(&mut clock, 0);
    tx0.write(&records, 1, vec![0]).unwrap();
    tx0.commit(&mut records, &mut clock).unwrap();

    // B begins before A, so B's timestamp is the smaller one.
    let mut tx_b = Transaction::new(&mut clock, 1);
    let mut tx_a = Transaction::new(&mut clock, 0);
    assert!(tx_a.get_timestamp() > tx_b.get_timestamp());

    // A observes the seeded version.
    let v0 = tx_a.read(&records, 1).unwrap();
    assert_eq!(v0.data, vec![0]);

    // B overwrites record 1 and commits below A's timestamp.
    tx_b.write(&records, 1, vec![9]).unwrap();
    tx_b.commit(&mut records, &mut clock).unwrap();

    // A's own write goes elsewhere, but validation of its read fails.
    tx_a.write(&records, 2, vec![7]).unwrap();
    let r = tx_a.commit(&mut records, &mut clock);
    assert!(matches!(r, Err(MaemioError::Conflict)));
}

#[test]
fn test_read_missing_record() {
    let (mut clock, mut records) = setup_test_env();
    records.insert(1, RecordHead::new(0));
    let mut tx = Transaction::new(&mut clock, 0);
    assert!(matches!(
        tx.read(&records, 42),
        Err(MaemioError::RecordNotFound(42))
    ));
    assert!(matches!(
        tx.write(&records, 42, vec![1]),
        Err(MaemioError::RecordNotFound(42))
    ));
}

#[test]
fn test_read_with_no_visible_version() {
    let (mut clock, mut records) = setup_test_env();
    records.insert(1, RecordHead::new(0));
    let mut tx = Transaction::new(&mut clock, 0);
    assert!(matches!(
        tx.read(&records, 1),
        Err(MaemioError::NoVisibleVersion)
    ));
}

#[test]
fn test_vanished_snapshot_fails_validation() {
    let (mut clock, mut records) = setup_test_env();
    records.insert(1, RecordHead::new(0));
    let mut tx0 = Transaction::new(&mut clock, 0);
    tx0.write(&records, 1, vec![1]).unwrap();
    tx0.commit(&mut records, &mut clock).unwrap();

    let mut tx = Transaction::new(&mut clock, 0);
    tx.read(&records, 1).unwrap();

    // The observed snapshot vanishes entirely before commit.
    let record = records.get_mut(&1).unwrap();
    record.inline_version = None;
    record.version_list.clear();

    let r = tx.commit(&mut records, &mut clock);
    assert!(matches!(r, Err(MaemioError::ValidationFailed)));
}

#[test]
fn test_transaction_create_record() {
    let (mut clock, mut records) = setup_test_env();
    let tx = Transaction::new(&mut clock, 0);
    tx.create_record(&mut records, 5).unwrap();
    assert!(records.contains_key(&5));
    assert_eq!(records.get(&5).unwrap().creation_timestamp, tx.get_timestamp());
}

#[test]
fn test_prepare_gc_tracking_lists_resolved_writes() {
    let (mut clock, mut records) = setup_test_env();
    records.insert(1, RecordHead::new(0));
    records.insert(2, RecordHead::new(0));
    let mut tx = Transaction::new(&mut clock, 0);
    tx.write(&records, 1, vec![1]).unwrap();
    tx.write(&records, 2, vec![2]).unwrap();
    let pairs = tx.prepare_gc_tracking(&records);
    assert_eq!(pairs.len(), 2);
    for (_, wts) in pairs {
        assert_eq!(wts, tx.get_timestamp());
    }
}
