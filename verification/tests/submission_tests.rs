use pastecore::ratelimit::RateLimiter;
use pastecore::submission::KEY_LENGTH;
use pastecore::submission::PASTE_TTL_SECONDS;
use pastecore::submission::SubmitRejection;
use pastecore::submission::expiry_timestamp;
use pastecore::submission::gate_submission;
use pastecore::submission::new_paste_key;
use pastecore::submission::paste_within_limit;

#[test]
fn gate_admits_and_then_rate_limits() {
    let mut rl = RateLimiter::new(Some(10));
    let id = "A".to_string();
    assert_eq!(gate_submission(&mut rl, &id, 0, 100, Some(1)), Ok(()));
    assert_eq!(
        gate_submission(&mut rl, &id, 5, 100, Some(1)),
        Err(SubmitRejection::RateLimited(5))
    );
    assert_eq!(gate_submission(&mut rl, &id, 10, 100, Some(1)), Ok(()));
}

#[test]
fn gate_rejects_oversized_paste() {
    let mut rl = RateLimiter::new(None);
    let id = "A".to_string();
    assert_eq!(
        gate_submission(&mut rl, &id, 0, 2000, Some(1)),
        Err(SubmitRejection::PasteTooLarge)
    );
    assert_eq!(gate_submission(&mut rl, &id, 0, 1024, Some(1)), Ok(()));
}

#[test]
fn oversized_submission_still_consumes_the_slot() {
    let mut rl = RateLimiter::new(Some(10));
    let id = "A".to_string();
    assert_eq!(
        gate_submission(&mut rl, &id, 0, 2000, Some(1)),
        Err(SubmitRejection::PasteTooLarge)
    );
    assert_eq!(
        gate_submission(&mut rl, &id, 5, 100, Some(1)),
        Err(SubmitRejection::RateLimited(5))
    );
}

#[test]
fn default_size_limit_is_one_mib() {
    assert!(paste_within_limit(1048576, None));
    assert!(!paste_within_limit(1048577, None));
    assert!(paste_within_limit(2048, Some(2)));
    assert!(!paste_within_limit(2049, Some(2)));
    assert!(paste_within_limit(u64::MAX, Some(u64::MAX)));
}

#[test]
fn expiry_is_one_week_out() {
    assert_eq!(expiry_timestamp(0), Some(604800));
    assert_eq!(expiry_timestamp(1000), Some(1000 + PASTE_TTL_SECONDS));
    assert_eq!(expiry_timestamp(u64::MAX), None);
    assert_eq!(expiry_timestamp(u64::MAX - PASTE_TTL_SECONDS), Some(u64::MAX));
}

#[test]
fn paste_keys_are_short_and_alphanumeric() {
    let mut i: u32 = 0;
    while i < 20 {
        let key = new_paste_key();
        assert_eq!(key.len(), KEY_LENGTH);
        for c in key.chars() {
            assert!(c.is_ascii_alphanumeric());
        }
        i += 1;
    }
}
