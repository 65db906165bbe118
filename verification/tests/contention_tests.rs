use maemio::ContentionManager;

#[test]
fn test_commit_tracking() {
    let mut manager = ContentionManager::new(2, 1000, 5);

    manager.record_commit(0);
    manager.record_commit(0);
    manager.record_commit(1);

    let throughput = manager.calculate_throughput();
    assert_eq!(throughput, 3);
}

#[test]
fn test_hill_climbing() {
    let mut manager = ContentionManager::new(1, 1000, 5);

    // Simulate increasing throughput
    for _ in 0..100 {
        manager.record_commit(0);
    }
    manager.update_max_backoff();

    // Simulate decreased throughput
    for _ in 0..50 {
        manager.record_commit(0);
    }
    manager.update_max_backoff();

    // Should have adjusted backoff time
    assert!(manager.get_max_backoff() > 0);
}

#[test]
fn test_first_step_leaves_backoff_unchanged() {
    let mut manager = ContentionManager::new(1, 1000, 5);
    // No historical throughput: the first hill-climb step only records
    // a snapshot and leaves the ceiling where it was.
    manager.update_max_backoff();
    assert_eq!(manager.get_max_backoff(), 0);
}

#[test]
fn test_backoff_direction_reverses_on_worse_throughput() {
    let mut manager = ContentionManager::new(1, 1000, 5);
    for _ in 0..100 {
        manager.record_commit(0);
    }
    manager.update_max_backoff();
    for _ in 0..100 {
        manager.record_commit(0);
    }
    manager.update_max_backoff();
    let up = manager.get_max_backoff();
    assert_eq!(up, 5);
    // Throughput collapses: the next step must move the other way.
    manager.update_max_backoff();
    assert_eq!(manager.get_max_backoff(), 0);
}

#[test]
fn test_backoff_duration_bounded() {
    let mut manager = ContentionManager::new(1, 1000, 5);
    assert_eq!(manager.backoff_duration(), 0);
    // Force a non-zero ceiling through the hill climb.
    for _ in 0..10 {
        manager.record_commit(0);
    }
    manager.update_max_backoff();
    for _ in 0..10 {
        manager.record_commit(0);
    }
    manager.update_max_backoff();
    let max = manager.get_max_backoff();
    assert!(max > 0);
    let mut saw_below_max = false;
    for _ in 0..64 {
        let d = manager.backoff_duration();
        assert!(d <= max);
        if d < max {
            saw_below_max = true;
        }
    }
    assert!(saw_below_max, "randomized backoff never varied");
}

#[test]
fn test_record_commit_ignores_unknown_thread() {
    let mut manager = ContentionManager::new(1, 1000, 5);
    manager.record_commit(7);
    assert_eq!(manager.calculate_throughput(), 0);
}
