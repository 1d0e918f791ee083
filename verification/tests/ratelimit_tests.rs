use pastecore::ratelimit::RateLimiter;
use pastecore::resolve_identity;

#[test]
fn threshold_at_ten_seconds() {
    let mut rl = RateLimiter::new(Some(10));
    assert_eq!(rl.try_admit(&"A".to_string(), 0), Ok(()));
    assert_eq!(rl.try_admit(&"A".to_string(), 5), Err(5));
    assert_eq!(rl.try_admit(&"A".to_string(), 10), Ok(()));
}

#[test]
fn identities_are_independent() {
    let mut rl = RateLimiter::new(Some(10));
    assert_eq!(rl.try_admit(&"A".to_string(), 0), Ok(()));
    assert_eq!(rl.try_admit(&"B".to_string(), 1), Ok(()));
    assert_eq!(rl.try_admit(&"A".to_string(), 1), Err(9));
}

#[test]
fn disabled_limiter_admits_everything() {
    let mut rl = RateLimiter::new(None);
    let mut i: u64 = 0;
    while i < 100 {
        assert_eq!(rl.try_admit(&"same".to_string(), 0), Ok(()));
        i += 1;
    }
}

#[test]
fn rejection_does_not_restamp() {
    let mut rl = RateLimiter::new(Some(10));
    assert_eq!(rl.try_admit(&"A".to_string(), 0), Ok(()));
    assert_eq!(rl.try_admit(&"A".to_string(), 5), Err(5));
    assert_eq!(rl.try_admit(&"A".to_string(), 9), Err(1));
    assert_eq!(rl.try_admit(&"A".to_string(), 10), Ok(()));
}

#[test]
fn clock_going_backwards_counts_as_no_elapsed_time() {
    let mut rl = RateLimiter::new(Some(10));
    assert_eq!(rl.try_admit(&"A".to_string(), 100), Ok(()));
    assert_eq!(rl.try_admit(&"A".to_string(), 90), Err(10));
}

#[test]
fn admit_now_smoke() {
    let mut rl = RateLimiter::new(None);
    assert_eq!(rl.admit_now(&"A".to_string()), Ok(()));
}

#[test]
fn identity_prefers_proxy_header() {
    let r = resolve_identity(Some("1.2.3.4".to_string()), "10.0.0.1".to_string());
    assert_eq!(r, "1.2.3.4".to_string());
    let r2 = resolve_identity(None, "10.0.0.1".to_string());
    assert_eq!(r2, "10.0.0.1".to_string());
}
