use maemio::{MaemioError, RecordHead, Version};

#[test]
fn test_version_visibility() {
    let mut record = RecordHead::new(0);

    // Create two versions.
    let v1 = Version::new(100, vec![1]);
    let v2 = Version::new(200, vec![2]);

    // DO NOT commit versions yet.
    // Install versions into the record (newer version installed first).
    record.install_version(v2).unwrap();
    record.install_version(v1).unwrap();

    // No version should be visible before commit.
    assert!(
        record.find_visible_version(150).is_none(),
        "Uncommitted version should not be visible"
    );

    // Now commit v1 (which is stored in version_list).
    record.version_list[0].commit();

    // v1 should now be visible.
    let visible = record.find_visible_version(150).unwrap();
    assert_eq!(visible.data, vec![1]);

    // v2 is still not visible because it is not committed.
    assert_eq!(record.find_visible_version(250).unwrap().data, vec![1]);
}

#[test]
fn test_nothing_visible_below_creation_timestamp() {
    let mut record = RecordHead::new(500);
    let mut v = Version::new(400, vec![7]);
    v.commit();
    // The version slots accept it, but readers below the creation
    // timestamp see nothing.
    record.install_version(v).unwrap();
    assert!(record.find_visible_version(499).is_none());
    assert!(record.find_visible_version(400).is_none());
    // At the creation timestamp itself the committed version shows.
    assert_eq!(record.find_visible_version(500).unwrap().data, vec![7]);
}

#[test]
fn test_large_payload_lands_in_chain() {
    let mut record = RecordHead::new(0);
    let mut big = Version::new(100, vec![0u8; 217]);
    big.commit();
    record.install_version(big).unwrap();
    assert!(record.inline_version.is_none());
    assert_eq!(record.version_list.len(), 1);
    assert_eq!(record.version_list[0].wts, 100);
}

#[test]
fn test_small_payload_prefers_inline() {
    let mut record = RecordHead::new(0);
    let mut v = Version::new(100, vec![0u8; 216]);
    v.commit();
    record.install_version(v).unwrap();
    assert!(record.inline_version.is_some());
    assert_eq!(record.version_list.len(), 0);
}

#[test]
fn test_inline_displacement_keeps_history() {
    let mut record = RecordHead::new(0);

    let mut older = Version::new(100, vec![1u8; 100]);
    older.commit();
    record.install_version(older).unwrap();

    let mut newer = Version::new(200, vec![2u8; 50]);
    newer.commit();
    record.install_version(newer).unwrap();

    // The newer payload sits inline; the older one was displaced to
    // the chain head.
    assert_eq!(record.inline_version.as_ref().unwrap().wts, 200);
    assert_eq!(record.version_list.len(), 1);
    assert_eq!(record.version_list[0].wts, 100);

    // Mid timestamps still observe the older payload.
    assert_eq!(record.find_visible_version(150).unwrap().data, vec![1u8; 100]);
    assert_eq!(record.find_visible_version(250).unwrap().data, vec![2u8; 50]);
}

#[test]
fn test_install_rejects_out_of_order_chain_push() {
    let mut record = RecordHead::new(0);
    record.install_version(Version::new(200, vec![1])).unwrap();
    record.install_version(Version::new(150, vec![2])).unwrap();
    // A version older than the chain head cannot be published without
    // breaking the newest-first order.
    let r = record.install_version(Version::new(100, vec![3]));
    assert!(matches!(r, Err(MaemioError::VersionInstallationFailed)));
    // The record is untouched.
    assert_eq!(record.inline_version.as_ref().unwrap().wts, 200);
    assert_eq!(record.version_list.len(), 1);
}

#[test]
fn test_wait_pending_and_status_transitions() {
    let mut v = Version::new(10, vec![1]);
    assert!(!v.wait_pending());
    assert!(!v.is_visible_to(10));
    v.commit();
    assert!(v.wait_pending());
    assert!(v.is_visible_to(10));
    assert!(!v.is_visible_to(9));
    let mut w = Version::new(10, vec![1]);
    w.abort();
    assert!(!w.wait_pending());
    assert!(!w.is_visible_to(10));
}

#[test]
fn test_update_rts_is_monotonic_max() {
    let mut v = Version::new(10, vec![]);
    v.update_rts(5);
    assert_eq!(v.rts, 5);
    v.update_rts(3);
    assert_eq!(v.rts, 5);
    v.update_rts(9);
    assert_eq!(v.rts, 9);
}

#[test]
fn test_try_gc_lock_is_free() {
    let record = RecordHead::new(0);
    assert!(record.try_gc_lock());
}
