use cornerstore::key::{HiddenKey, SHARDS};
use std::collections::hash_map::DefaultHasher;
use std::hash::Hasher;

#[test]
fn identifier_is_the_digest_of_the_key_bytes() {
    let mut hasher = DefaultHasher::new();
    hasher.write(b"greeting");
    assert_eq!(HiddenKey::new(b"greeting").0, hasher.finish());

    let mut empty = DefaultHasher::new();
    empty.write(b"");
    assert_eq!(HiddenKey::new(b"").0, empty.finish());
}

#[test]
fn identifier_is_repeatable() {
    assert_eq!(HiddenKey::new(b"greeting"), HiddenKey::new(b"greeting"));
    assert_eq!(HiddenKey::new(b""), HiddenKey::new(b""));
    assert_ne!(HiddenKey::new(b"greeting"), HiddenKey::new(b"greetings"));
}

#[test]
fn shard_is_bits_13_to_19() {
    assert_eq!(HiddenKey(0).shard(), 0);
    assert_eq!(HiddenKey(0x1fff).shard(), 0);
    assert_eq!(HiddenKey(0x2000).shard(), 1);
    assert_eq!(HiddenKey(0x3fff).shard(), 1);
    assert_eq!(HiddenKey(0x4000).shard(), 2);
    assert_eq!(HiddenKey(0xfe000).shard(), 127);
    assert_eq!(HiddenKey(0xff000).shard(), 127);
    assert_eq!(HiddenKey(0xfffff).shard(), 127);
    assert_eq!(HiddenKey(0x100000).shard(), 0);
    assert_eq!(HiddenKey(0x102000).shard(), 1);
    assert_eq!(HiddenKey(u64::MAX).shard(), 127);
    assert_eq!(HiddenKey(0xffff_ffff_fff0_1fff).shard(), 0);
}

#[test]
fn shard_is_inside_the_table() {
    assert_eq!(SHARDS, 128);
    let mut i: u32 = 0;
    while i < 5000 {
        let key = format!("key-{}", i).into_bytes();
        let hidden = HiddenKey::new(&key);
        assert!(hidden.shard() < SHARDS);
        assert_eq!(hidden.shard(), HiddenKey::new(&key).shard());
        assert_eq!(hidden.shard() as u64, (hidden.0 / 0x2000) % 128);
        i += 1;
    }
}
