use spa_pq::replay::ReplayCache;

fn nonce_key(bytes: [u8; 16]) -> u128 {
    u128::from_be_bytes(bytes)
}

#[test]
fn replay_cache_rejects_duplicate() {
    let mut cache = ReplayCache::new(16);
    let ip: u32 = u32::from_be_bytes([1, 2, 3, 4]);
    let nonce = nonce_key([7u8; 16]);
    let ts = 1111i64;
    let fresh = cache.seen_or_insert(ip, nonce, ts, 0, 30_000);
    assert!(!fresh);
    let dup = cache.contains_key(ip, nonce, ts);
    assert!(dup, "expected duplicate found");
}

#[test]
fn seen_or_insert_false_then_true_then_true() {
    let mut cache = ReplayCache::new(16);
    let ip: u32 = 0x0a000001;
    let nonce = nonce_key([9u8; 16]);
    let ts = 500i64;
    let ttl = 30_000u64;
    assert!(!cache.seen_or_insert(ip, nonce, ts, 0, ttl));
    assert!(cache.seen_or_insert(ip, nonce, ts, 10_000, ttl));
    assert!(cache.seen_or_insert(ip, nonce, ts, 20_000, ttl));
}

#[test]
fn key_forgotten_after_window_lapses() {
    let mut cache = ReplayCache::new(16);
    let ip: u32 = 0x0a000001;
    let nonce = nonce_key([9u8; 16]);
    let ts = 500i64;
    let ttl = 30_000u64;
    assert!(!cache.seen_or_insert(ip, nonce, ts, 0, ttl));
    // 30 000 ms after arrival the entry still keeps; one past, it purges.
    assert!(cache.seen_or_insert(ip, nonce, ts, 30_000, ttl));
    assert!(!cache.seen_or_insert(ip, nonce, ts, 30_001, ttl));
}

#[test]
fn cap_pressure_evicts_exactly_the_oldest() {
    let mut cache = ReplayCache::new(4);
    let ttl = 60_000u64;
    for k in 0..4u32 {
        let fresh = cache.seen_or_insert(k, nonce_key([k as u8; 16]), k as i64, k as u64, ttl);
        assert!(!fresh);
    }
    // A fifth key evicts the oldest (key 0) and only it.
    assert!(!cache.seen_or_insert(9, nonce_key([9u8; 16]), 9, 10, ttl));
    assert!(!cache.contains_key(0, nonce_key([0u8; 16]), 0));
    for k in 1..4u32 {
        assert!(cache.contains_key(k, nonce_key([k as u8; 16]), k as i64));
    }
    // The evicted key is accepted as new again.
    assert!(!cache.seen_or_insert(0, nonce_key([0u8; 16]), 0, 11, ttl));
}

#[test]
fn distinct_keys_are_not_replays() {
    let mut cache = ReplayCache::new(16);
    let ttl = 30_000u64;
    assert!(!cache.seen_or_insert(1, nonce_key([1u8; 16]), 7, 0, ttl));
    // Same nonce and ts from another source: a different key.
    assert!(!cache.seen_or_insert(2, nonce_key([1u8; 16]), 7, 1, ttl));
    // Same source and ts under another nonce: a different key.
    assert!(!cache.seen_or_insert(1, nonce_key([2u8; 16]), 7, 2, ttl));
    // Same source and nonce at another ts: a different key.
    assert!(!cache.seen_or_insert(1, nonce_key([1u8; 16]), 8, 3, ttl));
}
