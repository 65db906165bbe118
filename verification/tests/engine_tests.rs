use maemio::{Maemio, MaemioConfig, MaemioError};

#[test]
fn test_custom_configuration() {
    let config = MaemioConfig {
        thread_count: 4,
        gc_interval: 20,
        clock_sync_interval: 200,
        initial_index_capacity: 2048,
    };

    let db = Maemio::with_config(config).unwrap();
    assert!(db.shutdown().is_ok());
}

#[test]
fn lib_test_concurrent_transactions() {
    let mut db = Maemio::new().unwrap();

    // Create a record
    db.create_record(1).unwrap();

    // First transaction writes initial value
    let mut tx = db.begin_transaction(0);
    tx.write(&db.transaction_manager.records, 1, vec![1]).unwrap();
    db.commit_transaction(&mut tx).unwrap();

    // Second transaction attempts to modify
    let mut tx = db.begin_transaction(0);
    tx.write(&db.transaction_manager.records, 1, vec![2]).unwrap();
    db.commit_transaction(&mut tx).unwrap();

    // Verify final state
    let mut tx = db.begin_transaction(0);
    let version = tx.read(&db.transaction_manager.records, 1).unwrap();
    assert_eq!(version.data, vec![2]);

    db.shutdown().unwrap();
}

#[test]
fn test_default_configuration_has_a_worker() {
    let config = MaemioConfig::default();
    assert!(config.thread_count >= 1);
    assert_eq!(config.gc_interval, 10);
    assert_eq!(config.clock_sync_interval, 100);
    assert_eq!(config.initial_index_capacity, 1024);
}

#[test]
fn test_with_config_rejects_too_many_workers() {
    let config = MaemioConfig {
        thread_count: 256,
        gc_interval: 10,
        clock_sync_interval: 100,
        initial_index_capacity: 1024,
    };
    assert!(matches!(
        Maemio::with_config(config),
        Err(MaemioError::System(_))
    ));
}

#[test]
fn test_duplicate_record_creation_fails() {
    let mut db = Maemio::new().unwrap();
    db.create_record(1).unwrap();
    assert!(matches!(db.create_record(1), Err(MaemioError::System(_))));
}

#[test]
fn test_commit_queues_writes_for_gc() {
    let mut db = Maemio::new().unwrap();
    db.create_record(1).unwrap();

    let mut tx = db.begin_transaction(0);
    tx.write(&db.transaction_manager.records, 1, vec![5]).unwrap();
    db.commit_transaction(&mut tx).unwrap();

    let queue = &db.gc.as_ref().unwrap().queue;
    assert_eq!(queue.len(), 1);
    assert_eq!(queue[0].0, 1);

    // The watermark has not advanced, so the pass keeps the entry and
    // the version.
    db.collect_garbage().unwrap();
    assert_eq!(db.gc.as_ref().unwrap().queue.len(), 1);

    db.shutdown().unwrap();
}

#[test]
fn test_gc_pass_after_watermark_advances() {
    let mut db = Maemio::new().unwrap();
    db.create_record(1).unwrap();

    let mut tx = db.begin_transaction(0);
    tx.write(&db.transaction_manager.records, 1, vec![5]).unwrap();
    db.commit_transaction(&mut tx).unwrap();

    let mut tx = db.begin_transaction(0);
    tx.write(&db.transaction_manager.records, 1, vec![6]).unwrap();
    db.commit_transaction(&mut tx).unwrap();

    // One active worker whose read timestamp has advanced past the
    // historical versions.
    let min_write = db.transaction_manager.clock_manager.clocks[0].last_timestamp;
    for c in db.transaction_manager.clock_manager.clocks.iter_mut() {
        c.generate_read_timestamp(min_write + 1);
    }
    db.transaction_manager.clock_manager.update_min_timestamps();
    let min_rts = db.transaction_manager.clock_manager.get_min_read_ts();
    assert!(min_rts >= min_write);

    db.collect_garbage().unwrap();

    // Every remaining version sits at or above the watermark.
    let record = db.transaction_manager.records.get(&1).unwrap();
    if let Some(iv) = &record.inline_version {
        assert!(iv.wts >= min_rts);
    }
    for v in record.version_list.iter() {
        assert!(v.wts >= min_rts);
    }
    // The write tracked at the watermark itself stays queued for a
    // later pass; the reclaimed one is gone.
    assert_eq!(db.gc.as_ref().unwrap().queue.len(), 1);
}

#[test]
fn test_get_record_resolution() {
    let mut db = Maemio::new().unwrap();
    db.create_record(3).unwrap();
    assert!(db.transaction_manager.get_record(3).is_ok());
    assert!(matches!(
        db.transaction_manager.get_record(4),
        Err(MaemioError::RecordNotFound(4))
    ));
}
