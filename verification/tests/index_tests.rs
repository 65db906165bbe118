use maemio::{HashIndex, IndexKey, MaemioError};

#[test]
fn test_hash_index_insert_and_get() {
    let mut index = HashIndex::new(1024);
    index.insert(IndexKey::Int(1), 100, 1).unwrap();
    assert_eq!(index.get(&IndexKey::Int(1), 2).unwrap(), Some(100));
    assert_eq!(index.get(&IndexKey::Int(2), 2).unwrap(), None);
}

#[test]
fn test_hash_index_hides_future_writes() {
    let mut index = HashIndex::new(16);
    index.insert(IndexKey::Int(1), 100, 10).unwrap();
    // A reader below the bucket's write timestamp sees nothing.
    assert_eq!(index.get(&IndexKey::Int(1), 9).unwrap(), None);
    assert_eq!(index.get(&IndexKey::Int(1), 10).unwrap(), Some(100));
}

#[test]
fn test_hash_index_get_is_repeatable() {
    let mut index = HashIndex::new(16);
    index.insert(IndexKey::String("alpha".to_string()), 7, 1).unwrap();
    let key = IndexKey::String("alpha".to_string());
    // Two successive lookups at the same timestamp with no committed
    // mutation in between return identical results.
    let first = index.get(&key, 5).unwrap();
    let second = index.get(&key, 5).unwrap();
    assert_eq!(first, second);
    assert_eq!(first, Some(7));
}

#[test]
fn test_hash_index_remove() {
    let mut index = HashIndex::new(16);
    index.insert(IndexKey::Bytes(vec![1, 2]), 5, 1).unwrap();
    assert!(index.remove(&IndexKey::Bytes(vec![1, 2]), 2).is_ok());
    assert_eq!(index.get(&IndexKey::Bytes(vec![1, 2]), 3).unwrap(), None);
    assert!(matches!(
        index.remove(&IndexKey::Bytes(vec![9]), 2),
        Err(MaemioError::RecordNotFound(0))
    ));
}

#[test]
fn test_hash_index_overwrites_key() {
    let mut index = HashIndex::new(16);
    index.insert(IndexKey::Int(1), 100, 1).unwrap();
    index.insert(IndexKey::Int(1), 200, 2).unwrap();
    assert_eq!(index.get(&IndexKey::Int(1), 3).unwrap(), Some(200));
}

#[test]
fn test_hash_index_range_scan_unsupported() {
    let index = HashIndex::new(16);
    assert!(matches!(
        index.range_scan(&IndexKey::Int(1), &IndexKey::Int(5), 1),
        Err(MaemioError::System(_))
    ));
}

#[test]
fn test_index_validation_contract() {
    let mut index = HashIndex::new(4);
    index.insert(IndexKey::Int(1), 100, 5).unwrap();

    // A transaction at or above every touched timestamp validates.
    let nodes = index
        .validate_index_access(&IndexKey::Int(1), &IndexKey::Int(1), 10)
        .unwrap();
    assert_eq!(nodes.len(), 1);
    index.update_timestamps(&nodes, 10);

    // A transaction below the bucket's write timestamp fails.
    assert!(matches!(
        index.validate_index_access(&IndexKey::Int(1), &IndexKey::Int(1), 4),
        Err(MaemioError::ValidationFailed)
    ));

    // After update_rts, readers below the recorded read timestamp
    // fail validation too.
    assert!(matches!(
        index.validate_index_access(&IndexKey::Int(1), &IndexKey::Int(1), 9),
        Err(MaemioError::ValidationFailed)
    ));

    // A ranged access touches every bucket.
    let all = index
        .validate_index_access(&IndexKey::Int(1), &IndexKey::Int(3), 10)
        .unwrap();
    assert_eq!(all.len(), 4);
}

#[test]
fn test_index_key_equality() {
    assert_eq!(IndexKey::Int(1), IndexKey::Int(1));
    assert_ne!(IndexKey::Int(1), IndexKey::Int(2));
    assert_eq!(
        IndexKey::String("a".to_string()),
        IndexKey::String("a".to_string())
    );
    assert_ne!(IndexKey::String("a".to_string()), IndexKey::Bytes(vec![97]));
    assert_eq!(IndexKey::Bytes(vec![1]), IndexKey::Bytes(vec![1]));
}

#[test]
fn test_capacity_rounds_up_to_power_of_two() {
    let index = HashIndex::new(1000);
    assert_eq!(index.num_buckets, 1024);
    let tiny = HashIndex::new(0);
    assert_eq!(tiny.num_buckets, 1);
}
