use ic_task_scheduler::metrics::{MetricsData, MetricsMap, MetricsStorage};

#[test]
fn new_map_uses_the_given_interval() {
    let map: MetricsMap<u64> = MetricsMap::new::<2>();
    assert_eq!(map.get_interval(), 2);
    assert_eq!(map.len(), 0);
}

#[test]
fn default_map_samples_hourly() {
    let map: MetricsMap<u64> = MetricsMap::default();
    assert_eq!(map.get_interval(), 1);
    assert_eq!(map.len(), 0);
}

#[test]
fn first_sample_keeps_its_own_timestamp() {
    let mut map: MetricsMap<u64> = MetricsMap::new::<10>();
    assert_eq!(map.insert(105, 1), None);
    assert_eq!(map.len(), 1);
    assert_eq!(*map.get_entry(0), (105, 1));
}

#[test]
fn sample_within_interval_overwrites_the_last() {
    let mut map: MetricsMap<u64> = MetricsMap::new::<10>();
    assert_eq!(map.insert(100, 1), None);
    assert_eq!(map.insert(105, 2), Some(1));
    assert_eq!(map.len(), 1);
    assert_eq!(*map.get_entry(0), (100, 2));
}

#[test]
fn sample_after_interval_opens_aligned_bucket() {
    let mut map: MetricsMap<u64> = MetricsMap::new::<10>();
    assert_eq!(map.insert(100, 1), None);
    assert_eq!(map.insert(123, 3), None);
    assert_eq!(map.len(), 2);
    assert_eq!(*map.get_entry(0), (100, 1));
    // 123 rounded down to a multiple of the interval
    assert_eq!(*map.get_entry(1), (120, 3));
}

#[test]
fn storage_defaults_to_empty_hourly_metrics() {
    let storage = MetricsStorage::default();
    assert_eq!(storage.metrics.get_interval(), 1);
    assert_eq!(storage.metrics.len(), 0);
    let data = MetricsData::default();
    assert_eq!(data.cycles, 0);
    assert_eq!(data.stable_memory_size, 0);
    assert_eq!(data.heap_memory_size, 0);
}
