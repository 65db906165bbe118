use std::collections::HashMap;

use maemio::{GarbageCollector, RecordHead, Version};

fn committed(wts: u64, data: Vec<u8>) -> Version {
    let mut v = Version::new(wts, data);
    v.commit();
    v
}

#[test]
fn test_gc_reclaims_below_watermark() {
    let mut records: HashMap<u64, RecordHead> = HashMap::new();
    let mut record = RecordHead::new(0);
    // Three committed generations: 100 and 200 end up on the chain,
    // 300 sits inline.
    record.install_version(committed(100, vec![1])).unwrap();
    record.install_version(committed(200, vec![2])).unwrap();
    record.install_version(committed(300, vec![3])).unwrap();
    records.insert(1, record);

    let mut gc = GarbageCollector::new(10);
    gc.track_version(1, 100);
    gc.track_version(1, 200);
    gc.track_version(1, 300);

    // One pass with the minimum read timestamp advanced past the two
    // older versions.
    gc.collect_garbage(&mut records, 250).unwrap();

    let record = records.get(&1).unwrap();
    // Only versions written at or after the watermark remain.
    assert_eq!(record.inline_version.as_ref().unwrap().wts, 300);
    assert!(record.version_list.iter().all(|v| v.wts >= 250));
    assert_eq!(record.version_list.len(), 0);
    assert_eq!(record.min_wts, 250);

    // A reader above the watermark still finds its version.
    assert_eq!(record.find_visible_version(350).unwrap().data, vec![3]);
    // Readers of the reclaimed range now find nothing.
    assert!(record.find_visible_version(150).is_none());

    // The entry tracked at or above the watermark stays queued.
    assert_eq!(gc.queue, vec![(1, 300)]);
}

#[test]
fn test_gc_keeps_entries_above_watermark() {
    let mut records: HashMap<u64, RecordHead> = HashMap::new();
    let mut record = RecordHead::new(0);
    record.install_version(committed(100, vec![1])).unwrap();
    records.insert(1, record);

    let mut gc = GarbageCollector::new(10);
    gc.track_version(1, 100);

    // Watermark has not passed the tracked write: nothing is touched.
    gc.collect_garbage(&mut records, 50).unwrap();
    assert_eq!(gc.queue, vec![(1, 100)]);
    assert_eq!(records.get(&1).unwrap().inline_version.as_ref().unwrap().wts, 100);
    assert_eq!(records.get(&1).unwrap().min_wts, 0);
}

#[test]
fn test_gc_drops_entries_for_missing_records() {
    let mut records: HashMap<u64, RecordHead> = HashMap::new();
    let mut gc = GarbageCollector::new(10);
    gc.track_version(9, 100);
    gc.collect_garbage(&mut records, 500).unwrap();
    assert!(gc.queue.is_empty());
}

#[test]
fn test_gc_pass_on_chain_heavy_record() {
    let mut records: HashMap<u64, RecordHead> = HashMap::new();
    let mut record = RecordHead::new(0);
    // Large payloads land on the chain, newest first.
    record.install_version(committed(100, vec![1u8; 300])).unwrap();
    record.install_version(committed(200, vec![2u8; 300])).unwrap();
    record.install_version(committed(300, vec![3u8; 300])).unwrap();
    records.insert(1, record);

    let mut gc = GarbageCollector::new(10);
    gc.track_version(1, 100);
    gc.collect_garbage(&mut records, 250).unwrap();

    let record = records.get(&1).unwrap();
    assert_eq!(record.version_list.len(), 1);
    assert_eq!(record.version_list[0].wts, 300);
    assert_eq!(record.find_visible_version(350).unwrap().data, vec![3u8; 300]);
    assert!(record.find_visible_version(240).is_none());
}
