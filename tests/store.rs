use bytes::Bytes;
use sharded_db::{execute, route, Reply, Request, Shard, ShardedDb, StoreError};
use std::sync::Arc;

fn bytes_of(v: &[u8]) -> Bytes {
    Bytes::copy_from_slice(v)
}

/// Two distinct keys that route to the same partition of `n`.
fn colliding_keys(n: usize) -> (String, String) {
    let first = "key0".to_string();
    let target = route(&first, n);
    let mut i = 1;
    loop {
        let candidate = format!("key{}", i);
        if route(&candidate, n) == target {
            return (first, candidate);
        }
        i += 1;
    }
}

#[test]
fn example_scenario() {
    let db = ShardedDb::new(10);
    db.insert("a".to_string(), bytes_of(&[1, 2, 3]));
    db.insert("b".to_string(), bytes_of(&[4, 5]));
    assert_eq!(db.get("a".to_string()), Some(bytes_of(&[1, 2, 3])));
    assert_eq!(db.get("b".to_string()), Some(bytes_of(&[4, 5])));
    assert_eq!(db.get("c".to_string()), None);
}

#[test]
fn route_is_stable_and_in_range() {
    for n in [1usize, 2, 7, 10, 16] {
        for key in ["", "a", "hello", "some longer key with spaces", "ключ"] {
            let r1 = route(key, n);
            let r2 = route(&key.to_string(), n);
            assert_eq!(r1, r2);
            assert!(r1 < n);
        }
    }
}

#[test]
fn route_spreads_keys() {
    let n = 8;
    let mut seen = vec![false; n];
    for i in 0..200 {
        seen[route(&format!("k{}", i), n)] = true;
    }
    assert!(seen.iter().filter(|s| **s).count() > 1);
}

#[test]
fn route_with_one_shard_is_zero() {
    assert_eq!(route("anything", 1), 0);
}

#[test]
fn round_trip() {
    let db = ShardedDb::new(4);
    db.insert("key".to_string(), bytes_of(b"value"));
    assert_eq!(db.get("key".to_string()), Some(bytes_of(b"value")));
}

#[test]
fn round_trip_empty_value_and_key() {
    let db = ShardedDb::new(3);
    db.insert(String::new(), Bytes::new());
    assert_eq!(db.get(String::new()), Some(Bytes::new()));
}

#[test]
fn overwrite_keeps_last_value() {
    let db = ShardedDb::new(4);
    db.insert("k".to_string(), bytes_of(b"v1"));
    db.insert("k".to_string(), bytes_of(b"v2"));
    assert_eq!(db.get("k".to_string()), Some(bytes_of(b"v2")));
}

#[test]
fn absent_key_is_not_found() {
    let db = ShardedDb::new(5);
    assert_eq!(db.get("missing".to_string()), None);
    db.insert("present".to_string(), bytes_of(b"x"));
    assert_eq!(db.get("missing".to_string()), None);
}

#[test]
fn isolation_in_one_partition() {
    let n = 4;
    let (k1, k2) = colliding_keys(n);
    let db = ShardedDb::new(n);
    db.insert(k2.clone(), bytes_of(b"second"));
    db.insert(k1.clone(), bytes_of(b"first"));
    db.insert(k1.clone(), bytes_of(b"first again"));
    assert_eq!(db.get(k2), Some(bytes_of(b"second")));
    assert_eq!(db.get(k1), Some(bytes_of(b"first again")));
}

#[test]
fn isolation_across_partitions() {
    let db = ShardedDb::new(16);
    for i in 0..50 {
        db.insert(format!("k{}", i), bytes_of(&[i as u8]));
    }
    db.insert("k7".to_string(), bytes_of(b"changed"));
    for i in 0..50 {
        let expected = if i == 7 { bytes_of(b"changed") } else { bytes_of(&[i as u8]) };
        assert_eq!(db.get(format!("k{}", i)), Some(expected));
    }
}

#[test]
fn value_survives_overwrite_after_read() {
    let db = ShardedDb::new(2);
    db.insert("k".to_string(), bytes_of(b"old"));
    let read = db.get("k".to_string()).unwrap();
    db.insert("k".to_string(), bytes_of(b"new"));
    assert_eq!(read, bytes_of(b"old"));
}

#[test]
fn shard_count_is_fixed() {
    let db = ShardedDb::new(10);
    assert_eq!(db.shard_count(), 10);
    db.insert("a".to_string(), bytes_of(b"1"));
    assert_eq!(db.shard_count(), 10);
}

#[test]
fn try_new_rejects_zero() {
    assert!(matches!(ShardedDb::try_new(0), Err(StoreError::InvalidConfiguration)));
}

#[test]
fn try_new_accepts_positive() {
    let db = ShardedDb::try_new(3).unwrap();
    assert_eq!(db.shard_count(), 3);
    assert_eq!(db.get("a".to_string()), None);
}

#[test]
fn concurrent_disjoint_writes() {
    let n = 8;
    let db = Arc::new(ShardedDb::new(n));
    let rt = tokio::runtime::Builder::new_multi_thread().worker_threads(4).build().unwrap();
    let mut handles = Vec::new();
    for i in 0..64u8 {
        let db = Arc::clone(&db);
        handles.push(rt.spawn_blocking(move || {
            db.insert(format!("key-{}", i), bytes_of(&[i, i, i]));
        }));
    }
    for h in handles {
        rt.block_on(h).unwrap();
    }
    for i in 0..64u8 {
        assert_eq!(db.get(format!("key-{}", i)), Some(bytes_of(&[i, i, i])));
    }
}

#[test]
fn concurrent_same_key_writes() {
    let db = Arc::new(ShardedDb::new(4));
    let rt = tokio::runtime::Builder::new_multi_thread().worker_threads(4).build().unwrap();
    let mut handles = Vec::new();
    for i in 0..32u8 {
        let db = Arc::clone(&db);
        handles.push(rt.spawn_blocking(move || {
            db.insert("shared".to_string(), bytes_of(&[i; 16]));
        }));
    }
    for h in handles {
        rt.block_on(h).unwrap();
    }
    let v = db.get("shared".to_string()).unwrap();
    assert_eq!(v.len(), 16);
    assert!(v.iter().all(|b| *b == v[0]));
    assert!(v[0] < 32);
}

#[test]
fn shard_insert_and_get() {
    let mut s = Shard::new();
    let k = "k".to_string();
    assert_eq!(s.get(&k), None);
    s.insert(k.clone(), bytes_of(b"1"));
    assert_eq!(s.get(&k), Some(bytes_of(b"1")));
    s.insert(k.clone(), bytes_of(b"2"));
    assert_eq!(s.get(&k), Some(bytes_of(b"2")));
    s.insert("other".to_string(), bytes_of(b"3"));
    assert_eq!(s.get(&k), Some(bytes_of(b"2")));
    assert_eq!(s.get(&"other".to_string()), Some(bytes_of(b"3")));
}

#[test]
fn execute_put_then_fetch() {
    let db = ShardedDb::new(10);
    let r = execute(&db, Request::Put { key: "a".to_string(), value: bytes_of(&[1, 2, 3]) });
    assert!(matches!(r, Reply::Done));
    match execute(&db, Request::Fetch { key: "a".to_string() }) {
        Reply::Value(v) => assert_eq!(v, bytes_of(&[1, 2, 3])),
        _ => panic!("expected a value"),
    }
    assert!(matches!(execute(&db, Request::Fetch { key: "b".to_string() }), Reply::NotFound));
}

#[test]
fn execute_unsupported() {
    let db = ShardedDb::new(2);
    match execute(&db, Request::Unsupported { description: "Publish".to_string() }) {
        Reply::Unsupported(d) => assert_eq!(d, "Publish"),
        _ => panic!("expected unsupported"),
    }
}
