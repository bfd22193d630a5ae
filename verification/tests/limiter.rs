use librtbit_lsd::limiter::{whole_secs, RateLimiter, RATE_LIMIT_PERIOD_SECS};

#[test]
fn test_lsd_rate_limiter_allows_first_call() {
    let mut rl = RateLimiter::default();
    // First call should always succeed.
    assert!(rl.check().is_some());
}

#[test]
fn test_lsd_rate_limiter_blocks_rapid_calls() {
    let mut rl = RateLimiter::default();
    // First call succeeds.
    assert!(rl.check().is_some());
    // Immediate second call should be rate-limited.
    assert!(rl.check().is_none());
}

#[test]
fn the_clock_shows_a_time_after_the_epoch() {
    let mut rl = RateLimiter::default();
    assert!(rl.check_at(Some(1_000_000_000)).is_some());
    assert!(rl.check().is_some());
    let mut ahead = RateLimiter::default();
    assert!(ahead.check_at(Some(u64::MAX)).is_some());
    assert!(ahead.check().is_none());
}

#[test]
fn a_period_must_pass() {
    let mut rl = RateLimiter::default();
    assert_eq!(RATE_LIMIT_PERIOD_SECS, 1);
    assert!(rl.check_at(Some(100)).is_some());
    assert!(rl.check_at(Some(100)).is_none());
    assert!(rl.check_at(Some(101)).is_some());
    assert!(rl.check_at(Some(101)).is_none());
}

#[test]
fn a_clock_that_moves_back_holds_replies_back() {
    let mut rl = RateLimiter::default();
    assert!(rl.check_at(Some(100)).is_some());
    assert!(rl.check_at(Some(50)).is_none());
    assert!(rl.check_at(Some(100)).is_none());
    assert!(rl.check_at(Some(101)).is_some());
}

#[test]
fn without_a_clock_there_is_no_limit() {
    let mut rl = RateLimiter::default();
    assert!(rl.check_at(None).is_some());
    assert!(rl.check_at(None).is_some());
    assert!(rl.check_at(Some(1)).is_some());
    assert!(rl.check_at(None).is_some());
    assert!(rl.check_at(Some(1)).is_none());
}

#[test]
fn the_first_request_passes_on_every_clock() {
    for now in [None, Some(0), Some(1), Some(u64::MAX)] {
        assert!(RateLimiter::default().check_at(now).is_some());
    }
    let mut rl = RateLimiter::default();
    assert!(rl.check_at(Some(0)).is_some());
    assert!(rl.check_at(Some(0)).is_none());
    assert!(rl.check_at(Some(1)).is_some());
}

#[test]
fn nanoseconds_are_dropped() {
    assert_eq!(whole_secs(Some((7, 999_999_999))), Some(7));
    assert_eq!(whole_secs(Some((0, 1))), Some(0));
    assert_eq!(whole_secs(None), None);
}
