use ruuvimqtt::aggregator::{Aggregator, CacheEntry};
use ruuvimqtt::flusher::{FlushPolicy, Flusher};
use ruuvimqtt::reading::{key_of, Fields, Reading};

fn reading(id: [u8; 6], observed_at: u64, temperature: Option<i32>) -> Reading {
    let mut fields = Fields::empty();
    fields.temperature = temperature;
    Reading { device_id: id, observed_at, fields }
}

const DEVICE: [u8; 6] = [0xAA, 0xBB, 0xCC, 0xDD, 0xEE, 0xFF];
const OTHER: [u8; 6] = [0x01, 0x02, 0x03, 0x04, 0x05, 0x06];

fn sorted(mut entries: Vec<CacheEntry>) -> Vec<CacheEntry> {
    entries.sort_by_key(|e| key_of(&e.latest.device_id));
    entries
}

#[test]
fn empty_cache_gives_empty_snapshot() {
    let mut cache = Aggregator::new();
    assert_eq!(cache.len(), 0);
    assert_eq!(cache.snapshot_and_mark_delivered(), Vec::new());
    assert_eq!(cache.get(&DEVICE), None);
}

#[test]
fn end_to_end_scenario() {
    let mut cache = Aggregator::new();
    let mut flusher = Flusher::new(FlushPolicy::MarkOnScan);
    let r = reading(DEVICE, 100, Some(2150));
    assert_eq!(key_of(&r.device_id), 0xAABBCCDDEEFF);
    cache.ingest(r);
    let snapshot = cache.snapshot_and_mark_delivered();
    assert_eq!(snapshot, vec![CacheEntry { latest: r, delivered: false }]);
    assert_eq!(flusher.select(&snapshot, 100), vec![r]);
    assert_eq!(cache.get(&DEVICE), Some(CacheEntry { latest: r, delivered: true }));
    // Nothing further comes in: the next scan hands nothing on.
    let next = cache.snapshot_and_mark_delivered();
    assert_eq!(next, vec![CacheEntry { latest: r, delivered: true }]);
    assert_eq!(flusher.select(&next, 110), Vec::new());
    assert_eq!(flusher.flush(&mut cache, 120), Vec::new());
}

#[test]
fn end_to_end_scenario_under_the_throttle() {
    let mut cache = Aggregator::new();
    let mut flusher = Flusher::new(FlushPolicy::TimeThrottled { window: 60 });
    let r = reading(DEVICE, 100, Some(2150));
    cache.ingest(r);
    assert_eq!(flusher.flush(&mut cache, 100), vec![r]);
    assert_eq!(flusher.flush(&mut cache, 110), Vec::new());
    assert_eq!(flusher.flush(&mut cache, 159), Vec::new());
    assert_eq!(flusher.flush(&mut cache, 160), vec![r]);
}

#[test]
fn last_write_wins_scenario() {
    let mut cache = Aggregator::new();
    let mut first = reading(DEVICE, 100, Some(2150));
    first.fields.humidity = Some(40_000);
    first.fields.battery = Some(3000);
    let mut second = reading(DEVICE, 101, None);
    second.fields.pressure = Some(100_000);
    cache.ingest(first);
    cache.ingest(second);
    let snapshot = cache.snapshot_and_mark_delivered();
    assert_eq!(snapshot.len(), 1);
    assert_eq!(snapshot[0].latest, second);
    assert_eq!(snapshot[0].latest.fields.temperature, None);
    assert_eq!(snapshot[0].latest.fields.humidity, None);
    assert_eq!(snapshot[0].latest.fields.battery, None);
    assert_eq!(snapshot[0].latest.fields.pressure, Some(100_000));
    assert!(!snapshot[0].delivered);
}

#[test]
fn dedup_keeps_the_last_of_many() {
    let mut cache = Aggregator::new();
    cache.ingest(reading(OTHER, 1, Some(1)));
    for n in 0..50u64 {
        cache.ingest(reading(DEVICE, 1000 - n, Some(n as i32)));
    }
    assert_eq!(cache.len(), 2);
    let snapshot = cache.snapshot_and_mark_delivered();
    let of_device: Vec<&CacheEntry> =
        snapshot.iter().filter(|e| e.latest.device_id == DEVICE).collect();
    assert_eq!(of_device.len(), 1);
    assert_eq!(of_device[0].latest, reading(DEVICE, 951, Some(49)));
    assert!(!of_device[0].delivered);
}

#[test]
fn arrival_order_counts_not_the_timestamp() {
    let mut cache = Aggregator::new();
    cache.ingest(reading(DEVICE, 200, Some(2)));
    cache.ingest(reading(DEVICE, 100, Some(1)));
    assert_eq!(cache.get(&DEVICE).unwrap().latest, reading(DEVICE, 100, Some(1)));
}

#[test]
fn new_reading_resets_the_delivered_mark() {
    let mut cache = Aggregator::new();
    let r = reading(DEVICE, 100, Some(1));
    cache.ingest(r);
    cache.snapshot_and_mark_delivered();
    assert!(cache.get(&DEVICE).unwrap().delivered);
    cache.snapshot_and_mark_delivered();
    assert!(cache.get(&DEVICE).unwrap().delivered);
    cache.ingest(r);
    assert_eq!(cache.get(&DEVICE), Some(CacheEntry { latest: r, delivered: false }));
}

#[test]
fn snapshot_holds_every_device_once() {
    let mut cache = Aggregator::new();
    let a = reading(OTHER, 1, Some(10));
    let b = reading(DEVICE, 2, Some(20));
    let c = reading([0, 0, 0, 0, 0, 1], 3, None);
    cache.ingest(a);
    cache.ingest(b);
    cache.snapshot_and_mark_delivered();
    cache.ingest(c);
    assert_eq!(cache.len(), 3);
    let snapshot = sorted(cache.snapshot_and_mark_delivered());
    assert_eq!(
        snapshot,
        vec![
            CacheEntry { latest: c, delivered: false },
            CacheEntry { latest: a, delivered: true },
            CacheEntry { latest: b, delivered: true },
        ]
    );
    let again = sorted(cache.snapshot_and_mark_delivered());
    assert!(again.iter().all(|e| e.delivered));
    assert_eq!(again.len(), 3);
    assert_eq!(cache.len(), 3);
}

#[test]
fn no_update_is_lost_in_either_order() {
    let r = reading(DEVICE, 100, Some(1));
    let newer = reading(DEVICE, 101, Some(2));
    // The reading comes in before the scan.
    let mut cache = Aggregator::new();
    cache.ingest(r);
    cache.ingest(newer);
    let snapshot = cache.snapshot_and_mark_delivered();
    assert!(snapshot.contains(&CacheEntry { latest: newer, delivered: false }));
    // The scan goes first.
    let mut cache = Aggregator::new();
    cache.ingest(r);
    let snapshot = cache.snapshot_and_mark_delivered();
    assert!(!snapshot.contains(&CacheEntry { latest: newer, delivered: false }));
    cache.ingest(newer);
    assert_eq!(cache.get(&DEVICE), Some(CacheEntry { latest: newer, delivered: false }));
    let next = cache.snapshot_and_mark_delivered();
    assert!(next.contains(&CacheEntry { latest: newer, delivered: false }));
}

#[test]
fn devices_that_differ_in_one_byte_are_kept_apart() {
    let mut cache = Aggregator::new();
    for position in 0..6 {
        let mut id = [0u8; 6];
        id[position] = 1;
        cache.ingest(reading(id, position as u64, None));
    }
    assert_eq!(cache.len(), 6);
    for position in 0..6 {
        let mut id = [0u8; 6];
        id[position] = 1;
        assert_eq!(cache.get(&id).unwrap().latest.observed_at, position as u64);
    }
}
