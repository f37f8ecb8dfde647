use ldk_node_store::records::{
    read_latest_node_ann_bcast_timestamp, read_latest_rgs_sync_timestamp, read_namespace_records,
    read_payments,
    write_latest_node_ann_bcast_timestamp, write_latest_rgs_sync_timestamp, RecordError,
    LATEST_RGS_SYNC_TIMESTAMP_KEY, PAYMENT_INFO_PERSISTENCE_PRIMARY_NAMESPACE,
    PAYMENT_INFO_PERSISTENCE_SECONDARY_NAMESPACE,
};
use ldk_node_store::store::{KvStore, StoreError};

#[test]
fn write_then_read_returns_same_bytes() {
    let mut store = KvStore::new();
    let payload = vec![0u8, 1, 2, 255, 42];
    store.write("a", "b", "c", &payload).unwrap();
    assert_eq!(store.read("a", "b", "c").unwrap(), payload);
    let other = vec![9u8; 1000];
    store.write("a", "b", "c", &other).unwrap();
    assert_eq!(store.read("a", "b", "c").unwrap(), other);
}

#[test]
fn missing_key_is_not_found() {
    let store = KvStore::new();
    assert!(matches!(store.read("a", "b", "c"), Err(StoreError::NotFound)));
}

#[test]
fn invalid_triple_touches_nothing() {
    let mut store = KvStore::new();
    assert!(matches!(
        store.write("", "b", "c", &vec![1u8]),
        Err(StoreError::InvalidNamespaceOrKey(_))
    ));
    assert!(matches!(store.read("", "b", "c"), Err(StoreError::InvalidNamespaceOrKey(_))));
    assert!(matches!(store.list("", "b"), Err(StoreError::InvalidNamespaceOrKey(_))));
}

#[test]
fn remove_deletes_only_its_key() {
    let mut store = KvStore::new();
    store.write("n", "", "one", &vec![1u8]).unwrap();
    store.write("n", "", "two", &vec![2u8]).unwrap();
    store.remove("n", "", "one", false).unwrap();
    assert!(matches!(store.read("n", "", "one"), Err(StoreError::NotFound)));
    assert_eq!(store.read("n", "", "two").unwrap(), vec![2u8]);
    store.remove("n", "", "absent", true).unwrap();
}

#[test]
fn list_returns_keys_of_one_namespace() {
    let mut store = KvStore::new();
    store.write("n", "x", "k1", &vec![1u8]).unwrap();
    store.write("n", "x", "k2", &vec![2u8]).unwrap();
    store.write("n", "y", "k3", &vec![3u8]).unwrap();
    store.write("n", "x", "k1", &vec![4u8]).unwrap();
    let mut keys = store.list("n", "x").unwrap();
    keys.sort();
    assert_eq!(keys, vec!["k1".to_string(), "k2".to_string()]);
    assert!(store.list("m", "").unwrap().is_empty());
}

#[test]
fn collection_round_trip() {
    let mut store = KvStore::new();
    let p = PAYMENT_INFO_PERSISTENCE_PRIMARY_NAMESPACE;
    let s = PAYMENT_INFO_PERSISTENCE_SECONDARY_NAMESPACE;
    let written: Vec<(String, Vec<u8>)> =
        (0..5u8).map(|i| (format!("payment_{}", i), vec![i, i + 1])).collect();
    for (k, v) in &written {
        store.write(p, s, k, v).unwrap();
    }
    store.write("other", "", "payment_9", &vec![9u8]).unwrap();
    let mut read: Vec<(String, Vec<u8>)> = read_payments(&store)
        .unwrap()
        .into_iter()
        .map(|r| (r.key, r.value))
        .collect();
    read.sort();
    assert_eq!(read, written);
}

#[test]
fn rgs_timestamp_round_trip() {
    let mut store = KvStore::new();
    assert!(matches!(
        read_latest_rgs_sync_timestamp(&store),
        Err(RecordError::Store(StoreError::NotFound))
    ));
    write_latest_rgs_sync_timestamp(0x0102_0304, &mut store).unwrap();
    assert_eq!(store.read("", "", LATEST_RGS_SYNC_TIMESTAMP_KEY).unwrap(), vec![1u8, 2, 3, 4]);
    assert_eq!(read_latest_rgs_sync_timestamp(&store).unwrap(), 0x0102_0304);
    write_latest_rgs_sync_timestamp(u32::MAX, &mut store).unwrap();
    assert_eq!(read_latest_rgs_sync_timestamp(&store).unwrap(), u32::MAX);
}

#[test]
fn node_ann_timestamp_round_trip() {
    let mut store = KvStore::new();
    write_latest_node_ann_bcast_timestamp(1_700_000_000, &mut store).unwrap();
    assert_eq!(
        store.read("", "", "latest_node_ann_bcast_timestamp").unwrap(),
        1_700_000_000u64.to_be_bytes().to_vec()
    );
    assert_eq!(read_latest_node_ann_bcast_timestamp(&store).unwrap(), 1_700_000_000);
}

#[test]
fn short_timestamp_fails_to_decode() {
    let mut store = KvStore::new();
    store.write("", "", "latest_rgs_sync_timestamp", &vec![1u8, 2, 3]).unwrap();
    assert!(matches!(
        read_latest_rgs_sync_timestamp(&store),
        Err(RecordError::DeserializationFailed)
    ));
    store.write("", "", "latest_rgs_sync_timestamp", &vec![0u8, 0, 1, 0, 77]).unwrap();
    assert_eq!(read_latest_rgs_sync_timestamp(&store).unwrap(), 256);
}

#[test]
fn collection_read_of_invalid_namespace_is_refused() {
    let store = KvStore::new();
    assert!(matches!(
        read_namespace_records(&store, "", "x"),
        Err(StoreError::InvalidNamespaceOrKey(_))
    ));
    assert!(read_namespace_records(&store, "empty", "").unwrap().is_empty());
}
