use spa_pq::rate::RateLimiter;

#[test]
fn per_source_bucket_allows_twenty_then_drops() {
    let mut rl = RateLimiter::new(0);
    let src: u32 = 0x0a000001;
    // 25 datagrams from one source inside one second: exactly 20 pass.
    let mut passed = 0;
    for k in 0..25u64 {
        if rl.permit(src, 100 + k) {
            passed += 1;
        }
    }
    assert_eq!(passed, 20);
    // The 21st and later were dropped; one second after the last refill
    // the bucket is full again.
    assert!(!rl.permit(src, 999));
    let mut passed_again = 0;
    for k in 0..25u64 {
        if rl.permit(src, 1100 + k) {
            passed_again += 1;
        }
    }
    assert_eq!(passed_again, 20);
}

#[test]
fn global_bucket_caps_two_hundred_per_second() {
    let mut rl = RateLimiter::new(0);
    let mut passed = 0;
    // 230 datagrams from distinct sources inside one second.
    for k in 0..230u32 {
        if rl.permit(k, 100 + k as u64) {
            passed += 1;
        }
    }
    assert_eq!(passed, 200);
    // After the next refill tick the limiter accepts again.
    assert!(rl.permit(7, 2000));
}

#[test]
fn per_source_bucket_refills_after_one_second() {
    let mut rl = RateLimiter::new(0);
    let src: u32 = 0x09090909;
    for _ in 0..20 {
        assert!(rl.permit(src, 100));
    }
    assert!(!rl.permit(src, 100));
    // Less than a second since the bucket's refill: still empty.
    assert!(!rl.permit(src, 1099));
    // A full second since the bucket's refill instant: full again.
    assert!(rl.permit(src, 1100));
}

#[test]
fn sources_do_not_share_buckets() {
    let mut rl = RateLimiter::new(0);
    for _ in 0..20 {
        assert!(rl.permit(1, 100));
    }
    assert!(!rl.permit(1, 100));
    // Another source still has its own full bucket.
    assert!(rl.permit(2, 100));
}
