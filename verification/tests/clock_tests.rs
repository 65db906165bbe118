use maemio::{Clock, ClockManager};

#[test]
fn test_timestamp_generation() {
    let mut clock = Clock::new(1).unwrap();
    let ts1 = clock.generate_write_timestamp();
    let ts2 = clock.generate_write_timestamp();
    assert!(ts2 > ts1, "Timestamps should be monotonically increasing");
    assert_eq!(ts1 & 0xFF, 1, "Thread ID should be preserved in timestamp");
}

#[test]
fn test_clock_synchronization() {
    let mut clock1 = Clock::new(1).unwrap();
    let mut clock2 = Clock::new(2).unwrap();

    clock2.local_clock = 1000;
    clock1.synchronize_with(&clock2);

    assert!(clock1.local_clock >= 1000);
}

#[test]
fn test_clock_manager() {
    let mut manager = ClockManager::new(4, 100).unwrap();

    let ts1 = manager.generate_write_timestamp(0);
    let ts2 = manager.generate_write_timestamp(1);

    manager.update_min_timestamps();
    assert!(manager.get_min_write_ts() <= ts1.min(ts2));
}

#[test]
fn test_thread_id_tagging_across_threads() {
    for tid in [0u8, 7, 42, 254] {
        let mut clock = Clock::new(tid).unwrap();
        let ts = clock.generate_write_timestamp();
        assert_eq!(ts & 0xFF, tid as u64);
    }
}

#[test]
fn test_clock_rejects_reserved_thread_id() {
    assert!(matches!(Clock::new(255), Err(maemio::MaemioError::System(_))));
}

#[test]
fn test_clock_manager_rejects_too_many_threads() {
    assert!(ClockManager::new(256, 100).is_err());
    assert!(ClockManager::new(255, 100).is_ok());
}

#[test]
fn test_read_timestamp_watermark() {
    let mut clock = Clock::new(3).unwrap();
    assert_eq!(clock.generate_read_timestamp(0), 0);
    assert_eq!(clock.generate_read_timestamp(1), 0);
    assert_eq!(clock.generate_read_timestamp(1000), 999);
    assert_eq!(clock.read_timestamp, 999);
}

#[test]
fn test_boost_inflates_next_timestamp() {
    let mut clock = Clock::new(0).unwrap();
    let ts1 = clock.generate_write_timestamp();
    clock.apply_boost(1_000_000);
    let ts2 = clock.generate_write_timestamp();
    assert!(ts2 >= (1_000_000u64 << 8));
    assert!(ts2 > ts1);
    clock.reset_boost();
    assert_eq!(clock.clock_boost, 0);
}

#[test]
fn test_ring_synchronization_lifts_laggards() {
    let mut manager = ClockManager::new(3, 100).unwrap();
    manager.clocks[1].local_clock = 5000;
    manager.synchronize_all();
    // Clock 0 synchronizes with clock 1 and is lifted to it.
    assert_eq!(manager.clocks[0].local_clock, 5000);
    // Clock 1 keeps its value; clock 2's neighbour is the updated clock 0.
    assert_eq!(manager.clocks[1].local_clock, 5000);
    assert_eq!(manager.clocks[2].local_clock, 5000);
}

#[test]
fn test_timestamps_saturate_at_logical_cap() {
    let mut clock = Clock::new(1).unwrap();
    clock.last_timestamp = 0x00FF_FFFF_FFFF_FFFF;
    let ts1 = clock.generate_write_timestamp();
    let ts2 = clock.generate_write_timestamp();
    // Once the 56-bit logical counter saturates, the clock pins at the
    // largest encodable timestamp instead of wrapping.
    assert_eq!(ts1, 0x00FF_FFFF_FFFF_FFFFu64 * 256 + 1);
    assert_eq!(ts2, ts1);
}
