use cornerstore::entry::KeyValuePair;
use cornerstore::key::HiddenKey;
use cornerstore::shards::ShardTable;

fn plain(key: &[u8], value: &[u8]) -> KeyValuePair {
    KeyValuePair { key: key.to_vec(), value: value.to_vec(), expiry: None }
}

#[test]
fn new_table_holds_nothing() {
    let table = ShardTable::new();
    assert!(table.lookup(HiddenKey(0)).is_none());
    assert!(table.lookup(HiddenKey(0x2000)).is_none());
    assert!(table.lookup(HiddenKey(u64::MAX)).is_none());
}

#[test]
fn upsert_then_lookup() {
    let mut table = ShardTable::new();
    table.upsert(HiddenKey(7), plain(b"k", b"v"));
    let found = table.lookup(HiddenKey(7)).unwrap();
    assert_eq!(found.key, b"k".to_vec());
    assert_eq!(found.value, b"v".to_vec());
    assert!(found.expiry.is_none());
    assert!(table.lookup(HiddenKey(8)).is_none());
}

#[test]
fn upsert_replaces_whole() {
    let mut table = ShardTable::new();
    table.upsert(HiddenKey(7), plain(b"k", b"first"));
    table.upsert(HiddenKey(7), plain(b"other key", b"second"));
    let found = table.lookup(HiddenKey(7)).unwrap();
    assert_eq!(found.key, b"other key".to_vec());
    assert_eq!(found.value, b"second".to_vec());
}

#[test]
fn delete_hands_back_the_record() {
    let mut table = ShardTable::new();
    table.upsert(HiddenKey(7), plain(b"k", b"v"));
    let removed = table.delete(HiddenKey(7)).unwrap();
    assert_eq!(removed.key, b"k".to_vec());
    assert_eq!(removed.value, b"v".to_vec());
    assert!(table.lookup(HiddenKey(7)).is_none());
}

#[test]
fn delete_of_a_missing_identifier_changes_nothing() {
    let mut table = ShardTable::new();
    table.upsert(HiddenKey(7), plain(b"k", b"v"));
    assert!(table.delete(HiddenKey(8)).is_none());
    assert!(table.delete(HiddenKey(8)).is_none());
    assert_eq!(table.lookup(HiddenKey(7)).unwrap().value, b"v".to_vec());
}

#[test]
fn identifiers_of_one_shard_and_of_many() {
    let mut table = ShardTable::new();
    // 0x2000 and 0x2001 select shard 1; 0x4000 selects shard 2; the third
    // differs from the first only above bit 19, so it selects shard 1 too.
    table.upsert(HiddenKey(0x2000), plain(b"a", b"1"));
    table.upsert(HiddenKey(0x2001), plain(b"b", b"2"));
    table.upsert(HiddenKey(0x4000), plain(b"c", b"3"));
    table.upsert(HiddenKey(0x10_2000), plain(b"d", b"4"));
    assert_eq!(table.lookup(HiddenKey(0x2000)).unwrap().value, b"1".to_vec());
    assert_eq!(table.lookup(HiddenKey(0x2001)).unwrap().value, b"2".to_vec());
    assert_eq!(table.lookup(HiddenKey(0x4000)).unwrap().value, b"3".to_vec());
    assert_eq!(table.lookup(HiddenKey(0x10_2000)).unwrap().value, b"4".to_vec());
    table.delete(HiddenKey(0x2000));
    assert!(table.lookup(HiddenKey(0x2000)).is_none());
    assert_eq!(table.lookup(HiddenKey(0x2001)).unwrap().value, b"2".to_vec());
    assert_eq!(table.lookup(HiddenKey(0x10_2000)).unwrap().value, b"4".to_vec());
}

#[test]
fn a_record_is_cloned_field_by_field() {
    let t = std::time::Instant::now();
    let record = KeyValuePair { key: b"k".to_vec(), value: b"v".to_vec(), expiry: Some(t) };
    let copy = record.clone();
    assert_eq!(copy.key, b"k".to_vec());
    assert_eq!(copy.value, b"v".to_vec());
    assert_eq!(copy.expiry, Some(t));
    assert!(!copy.expired_at(t - std::time::Duration::new(0, 1)));
    assert!(copy.expired_at(t));
    assert!(!plain(b"k", b"v").clone().expired_at(t));
}
