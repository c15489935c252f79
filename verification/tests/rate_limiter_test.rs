//! The token-bucket rate limiter over an explicit clock.

use math_rpc::utils::rate_limiter::RateLimiter;

#[test]
fn test_rate_limiter_basic() {
    // Two tokens per second: the third check in the same instant fails.
    let mut limiter = RateLimiter::new(2, 1_000_000, 0);

    assert!(limiter.check_rate_limit(0));
    assert!(limiter.check_rate_limit(0));
    assert!(!limiter.check_rate_limit(0));
}

#[test]
fn test_rate_limiter_refill() {
    // One token per 100 ms: after 150 ms a token is back.
    let mut limiter = RateLimiter::new(1, 100_000, 0);

    assert!(limiter.check_rate_limit(0));
    assert!(!limiter.check_rate_limit(0));

    assert!(limiter.check_rate_limit(150_000));
}

#[test]
fn test_rate_limiter_available_tokens() {
    let mut limiter = RateLimiter::new(5, 1_000_000, 0);

    assert_eq!(limiter.available_tokens(0), 5);

    limiter.check_rate_limit(0);
    assert_eq!(limiter.available_tokens(0), 4);

    limiter.check_rate_limit(0);
    limiter.check_rate_limit(0);
    assert_eq!(limiter.available_tokens(0), 2);
}

#[test]
fn test_rate_limiter_clock_going_backwards_refills_nothing() {
    let mut limiter = RateLimiter::new(1, 1_000_000, 2_000_000);

    assert!(limiter.check_rate_limit(2_000_000));
    assert!(!limiter.check_rate_limit(1_000_000));
}

#[test]
fn test_rate_limiter_caps_at_burst() {
    let mut limiter = RateLimiter::new(3, 1_000_000, 0);
    // A long idle span refills at most the burst capacity.
    assert_eq!(limiter.available_tokens(50_000_000), 3);
}
