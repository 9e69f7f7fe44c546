use sparkling_core::throttle::TokenBucket;

const SECOND: u64 = 1_000_000_000;

/// A bucket together with a clock that waits advance.
struct Timed {
    bucket: TokenBucket,
    now: u64,
}

impl Timed {
    fn new(limit: Option<u64>) -> Self {
        Timed { bucket: TokenBucket::new(limit, 0), now: 0 }
    }

    fn acquire(&mut self, amount: u64) {
        let wait = self.bucket.acquire(amount, self.now);
        self.now += u64::try_from(wait).unwrap();
    }
}

#[test]
fn unlimited_acquires_immediately() {
    let mut t = Timed::new(None);
    for _ in 0..1000 {
        t.acquire(64 * 1024);
    }
    assert_eq!(t.now, 0);
}

#[test]
fn rate_limited_paces_output() {
    let mut t = Timed::new(Some(1000));
    t.acquire(1000);
    let t0 = t.now;
    t.acquire(500);
    assert!(t.now - t0 >= SECOND / 2);
    assert_eq!(t.now - t0, SECOND / 2);
}

#[test]
fn oversize_acquire_terminates_and_paces() {
    let mut t = Timed::new(Some(60_000));
    t.acquire(64 * 1024);
    let t0 = t.now;
    t.acquire(64 * 1024);
    assert!(t.now - t0 >= SECOND);
    assert!(t.now - t0 < 2 * SECOND);
}

#[test]
fn sustained_pacing_not_double_credit() {
    let mut t = Timed::new(Some(1000));
    t.acquire(1000);
    let t0 = t.now;
    for _ in 0..10 {
        t.acquire(500);
    }
    assert!(t.now - t0 >= 5 * SECOND);
    assert!(t.now - t0 < 7 * SECOND);
}

#[test]
fn concurrent_acquires_do_not_overadmit() {
    let mut t = Timed::new(Some(1000));
    t.acquire(1000);
    let t0 = t.now;
    let waits: Vec<u128> = (0..4).map(|_| t.bucket.acquire(500, t0)).collect();
    let last = *waits.iter().max().unwrap();
    assert!(last >= 2 * SECOND as u128);
    assert_eq!(waits, vec![500_000_000, 1_000_000_000, 1_500_000_000, 2_000_000_000]);
}

#[test]
fn set_rate_takes_effect_immediately() {
    let mut t = Timed::new(Some(10));
    t.bucket.set_rate(None);
    for _ in 0..100 {
        t.acquire(64 * 1024);
    }
    assert_eq!(t.now, 0);
}

#[test]
fn limit_of_zero_is_no_limit() {
    let mut t = Timed::new(Some(0));
    t.acquire(u64::MAX);
    assert_eq!(t.now, 0);
    t.bucket.set_rate(Some(100));
    t.acquire(100);
    assert_eq!(t.now, 0);
    t.acquire(100);
    assert_eq!(t.now, SECOND);
}

#[test]
fn shortest_wait_is_a_millisecond() {
    let mut b = TokenBucket::new(Some(1_000_000_000), 0);
    assert_eq!(b.acquire(1_000_000_000, 0), 0);
    assert_eq!(b.acquire(1, 0), 1_000_000);
}

#[test]
fn bucket_holds_one_second() {
    let mut b = TokenBucket::new(Some(1000), 0);
    assert_eq!(b.acquire(1000, 0), 0);
    // A long pause fills the bucket, but no further than its capacity.
    assert_eq!(b.acquire(1000, 100 * SECOND), 0);
    assert_eq!(b.acquire(1000, 100 * SECOND), SECOND as u128);
}

#[test]
fn rate_is_kept_over_many_requests() {
    let rate: u64 = 300_000;
    let mut t = Timed::new(Some(rate));
    let mut total: u64 = 0;
    let mut x: u64 = 12345;
    for _ in 0..500 {
        x = x.wrapping_mul(6364136223846793005).wrapping_add(1442695040888963407);
        let amount = x >> 48;
        t.acquire(amount);
        t.now += (x >> 40) % 1_000_000;
        total += amount;
        assert!(total as u128 * SECOND as u128 <= rate as u128 * (SECOND as u128 + t.now as u128));
    }
}
