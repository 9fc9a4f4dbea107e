use comsrv_protocols::point::{PointType, Quality};
use comsrv_protocols::slot::{AtomicBoolStore, DataSlot, ShardedSlotStore, SlotStore};

/// A point value as the service carries it.
#[derive(Debug, Clone, PartialEq)]
enum Value {
    Float(f64),
    Integer(i64),
}

#[test]
fn test_atomic_bool_store() {
    let mut store = AtomicBoolStore::from_pins(&[1, 2, 3]);

    assert_eq!(store.len(), 3);
    assert!(store.contains(1));
    assert!(!store.contains(99));

    assert_eq!(store.get(1), Some(false));
    assert_eq!(store.get(2), Some(false));
    assert_eq!(store.get(99), None);

    store.set(1, true);
    assert_eq!(store.get(1), Some(true));

    store.set(2, true);
    store.set(1, false);
    assert_eq!(store.get(1), Some(false));
    assert_eq!(store.get(2), Some(true));

    store.set(99, true);
    assert_eq!(store.get(99), None);

    let all = store.get_all();
    assert_eq!(all.len(), 3);
}

#[test]
fn test_data_slot() {
    let mut slot = DataSlot::new();

    assert_eq!(slot.version(), 0);
    assert!(slot.read().is_none());

    slot.update(Value::Float(42.5), Quality::Good);
    assert_eq!(slot.version(), 1);

    let (value, quality, _ts, version) = slot.read().unwrap();
    assert_eq!(value, Value::Float(42.5));
    assert_eq!(quality, Quality::Good);
    assert_eq!(version, 1);

    slot.update(Value::Integer(100), Quality::Uncertain);
    assert_eq!(slot.version(), 2);

    let (value, quality, _ts, version) = slot.read().unwrap();
    assert_eq!(value, Value::Integer(100));
    assert_eq!(quality, Quality::Uncertain);
    assert_eq!(version, 2);
}

#[test]
fn bool_store_edge_cases() {
    let store = AtomicBoolStore::from_pins(&[]);
    assert!(store.is_empty());
    let mut store = AtomicBoolStore::from_pins(&[5, 5, 6]);
    assert_eq!(store.len(), 3);
    store.set(5, true);
    let mut all = store.get_all();
    all.sort();
    assert_eq!(all, vec![(5, true), (6, false)]);
}

#[test]
fn test_slot_store() {
    let mut store = SlotStore::from_points(&[10, 20, 30], PointType::Telemetry);

    assert_eq!(store.len(), 3);
    assert!(store.contains(10));
    assert!(!store.contains(99));

    store.update(10, Value::Float(1.0), Quality::Good);
    store.update(20, Value::Float(2.0), Quality::Good);
    store.update(30, Value::Float(30.0), Quality::Good);

    let slot = store.get(10).unwrap();
    let (value, _, _, _) = slot.read().unwrap();
    assert_eq!(value, Value::Float(1.0));

    let batch = store.export_all();
    assert_eq!(batch.len(), 3);
    for point in batch.iter() {
        assert_eq!(point.point_type, PointType::Telemetry);
    }
}

#[test]
fn test_sharded_slot_store() {
    let mut store = ShardedSlotStore::new(&[1, 2, 3, 4, 5, 6, 7, 8], 4, PointType::Signal);

    assert_eq!(store.len(), 8);
    assert_eq!(store.shard_count(), 4);
    assert!(store.contains(1));
    assert!(!store.contains(99));

    store.update(1, Value::Float(1.0), Quality::Good);
    store.update(5, Value::Float(5.0), Quality::Good);

    let (value, quality, _, _) = store.read(1).unwrap();
    assert_eq!(value, Value::Float(1.0));
    assert_eq!(quality, Quality::Good);

    let (value, _, _, _) = store.read(5).unwrap();
    assert_eq!(value, Value::Float(5.0));

    assert!(store.read(99).is_none());

    let batch = store.export_all();
    assert_eq!(batch.len(), 2);
}

#[test]
fn slot_store_edge_cases() {
    let store: SlotStore<i64> = SlotStore::empty();
    assert!(store.is_empty());
    assert!(store.point_ids().is_empty());

    let mut store = SlotStore::telemetry(&[7, 8]);
    store.update(99, 5i64, Quality::Good);
    assert!(store.export_all().is_empty());
    store.update(8, 5i64, Quality::Bad);
    let out = store.export_all();
    assert_eq!(out.len(), 1);
    assert_eq!(out[0].id, 8);
    assert_eq!(out[0].value, 5);
    assert_eq!(out[0].quality, Quality::Bad);
    assert_eq!(store.point_ids(), &[7, 8]);
    assert!(store.get(7).unwrap().read().is_none());
}

#[test]
fn sharded_store_zero_shards_means_one() {
    let mut store: ShardedSlotStore<i64> = ShardedSlotStore::new(&[3, 4], 0, PointType::Control);
    assert_eq!(store.shard_count(), 1);
    store.update(4, 9, Quality::Good);
    store.update(3, 1, Quality::Good);
    let out = store.export_all();
    // Shard order, then slot order within the shard.
    assert_eq!(out.iter().map(|r| r.id).collect::<Vec<_>>(), vec![3, 4]);
    assert_eq!(store.read(4).unwrap().3, 1);
    store.update(4, 10, Quality::Good);
    assert_eq!(store.read(4).unwrap(), (10, Quality::Good, store.read(4).unwrap().2, 2));
}
