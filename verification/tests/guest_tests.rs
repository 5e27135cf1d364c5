use rust_ai::guest::{
    get_guest_key, start_of_next_day, GuestQuotaLimiter, MAX_GUEST_MESSAGES_PER_DAY,
};

const NOW: u64 = 1_700_000_000_000;

#[test]
fn test_start_of_next_day() {
    // Jan 1, 2022 00:00:00 UTC -> Jan 2, 2022 00:00:00 UTC
    let timestamp = 1640995200000;
    let next_day = start_of_next_day(timestamp);
    let expected_next_day = 1641081600000;
    assert_eq!(next_day, expected_next_day);

    // A mid-day timestamp rounds to the same boundary.
    assert_eq!(start_of_next_day(1640995200000 + 5_000), expected_next_day);
    // A timestamp just before the boundary still rounds to it.
    assert_eq!(start_of_next_day(1641081600000 - 1), expected_next_day);
}

#[test]
fn test_get_guest_key() {
    let key1 = get_guest_key(Some("fingerprint123"), Some("192.168.1.1"), None);
    assert_eq!(key1, "fingerprint123|192.168.1.1");

    let key2 = get_guest_key(None, Some("192.168.1.1"), Some("anon-123"));
    assert_eq!(key2, "anon:anon-123");

    let key3 = get_guest_key(None, Some("192.168.1.1"), None);
    assert_eq!(key3, "unknown|192.168.1.1");

    // A user id without the anon- form falls back to fingerprint|ip.
    let key4 = get_guest_key(Some("fp"), Some("ip"), Some("user-55"));
    assert_eq!(key4, "fp|ip");
}

#[test]
fn test_quota_admits_up_to_max_then_rejects() {
    let mut limiter = GuestQuotaLimiter::new();
    let mut reset_seen = 0;

    for expected_remaining in [4u32, 3, 2, 1, 0] {
        let (allowed, remaining, reset_at, reason) =
            limiter.check_guest_daily_limit_at(Some("fp"), Some("1.2.3.4"), None, NOW);
        assert!(allowed);
        assert_eq!(remaining, expected_remaining);
        assert!(reset_at > NOW);
        assert_eq!(reason, "fallback_ok");
        if reset_seen == 0 {
            reset_seen = reset_at;
        } else {
            assert_eq!(reset_at, reset_seen);
        }
    }

    let (allowed, remaining, reset_at, reason) =
        limiter.check_guest_daily_limit_at(Some("fp"), Some("1.2.3.4"), None, NOW + 1000);
    assert!(!allowed);
    assert_eq!(remaining, 0);
    assert_eq!(reset_at, reset_seen);
    assert_eq!(reason, "fallback_limit");
}

#[test]
fn test_day_boundary_reset_admits_again() {
    let mut limiter = GuestQuotaLimiter::new();

    let mut reset_at = 0;
    for _ in 0..MAX_GUEST_MESSAGES_PER_DAY {
        let (allowed, _, r, _) =
            limiter.check_guest_daily_limit_at(Some("fp"), None, None, NOW);
        assert!(allowed);
        reset_at = r;
    }
    let (allowed, _, _, _) = limiter.check_guest_daily_limit_at(Some("fp"), None, None, NOW);
    assert!(!allowed);

    // At the reset time the quota starts over.
    let (allowed, remaining, new_reset, reason) =
        limiter.check_guest_daily_limit_at(Some("fp"), None, None, reset_at);
    assert!(allowed);
    assert_eq!(remaining, MAX_GUEST_MESSAGES_PER_DAY - 1);
    assert!(new_reset > reset_at);
    assert_eq!(reason, "fallback_ok");
}

#[test]
fn test_guest_key_priority_shares_bucket() {
    let mut limiter = GuestQuotaLimiter::new();

    // Same anonymous id, different fingerprints and addresses: one bucket.
    let (allowed1, remaining1, _, _) = limiter.check_guest_daily_limit_at(
        Some("fp-one"),
        Some("10.0.0.1"),
        Some("anon-123"),
        NOW,
    );
    let (allowed2, remaining2, _, _) = limiter.check_guest_daily_limit_at(
        Some("fp-two"),
        Some("10.0.0.2"),
        Some("anon-123"),
        NOW,
    );
    assert!(allowed1);
    assert!(allowed2);
    assert_eq!(remaining1, 4);
    assert_eq!(remaining2, 3);
}

#[test]
fn test_fallback_key_collision() {
    let mut limiter = GuestQuotaLimiter::new();

    assert_eq!(get_guest_key(None, None, None), "unknown|unknown");

    // Two fully anonymous calls consume from the same bucket.
    let (_, remaining1, _, _) = limiter.check_guest_daily_limit_at(None, None, None, NOW);
    let (_, remaining2, _, _) = limiter.check_guest_daily_limit_at(None, None, None, NOW);
    assert_eq!(remaining1, 4);
    assert_eq!(remaining2, 3);
}

#[test]
fn test_distinct_keys_have_distinct_buckets() {
    let mut limiter = GuestQuotaLimiter::new();

    let (_, remaining_a, _, _) =
        limiter.check_guest_daily_limit_at(Some("fp-a"), Some("1.1.1.1"), None, NOW);
    let (_, remaining_b, _, _) =
        limiter.check_guest_daily_limit_at(Some("fp-b"), Some("1.1.1.1"), None, NOW);
    // Each key gets its own full quota.
    assert_eq!(remaining_a, 4);
    assert_eq!(remaining_b, 4);
}

#[test]
fn test_check_guest_daily_limit() {
    // Against the real clock: a fresh key's first request is admitted.
    let mut limiter = GuestQuotaLimiter::new();
    let (allowed, remaining, reset_at, reason) =
        limiter.check_guest_daily_limit(Some("fingerprint123"), Some("192.168.1.1"), None);

    assert!(allowed);
    assert_eq!(remaining, 4);
    assert!(reset_at > 0);
    assert_eq!(reason, "fallback_ok");
}
