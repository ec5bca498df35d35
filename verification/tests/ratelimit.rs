use nail::mailbox::RecordingSender;
use nail::ratelimit::RateLimiter;

#[test]
fn limiter_blocks_repeat_sends_within_the_cooldown() {
    let mut limiter = RateLimiter::new(60);
    let t = 1_700_000_000_000u64;
    assert!(limiter.allow_at("alice@example.com", t));
    assert!(!limiter.allow_at("alice@example.com", t + 1_000));
    assert!(!limiter.allow_at("alice@example.com", t + 59_999));
    assert!(limiter.allow_at("alice@example.com", t + 60_000));
}

#[test]
fn limiter_refusals_do_not_restart_the_cooldown() {
    let mut limiter = RateLimiter::new(60);
    let t = 5_000_000u64;
    assert!(limiter.allow_at("alice@example.com", t));
    assert!(!limiter.allow_at("alice@example.com", t + 30_000));
    assert!(limiter.allow_at("alice@example.com", t + 60_000));
    assert!(!limiter.allow_at("alice@example.com", t + 60_001));
}

#[test]
fn limiter_allows_different_recipients() {
    let mut limiter = RateLimiter::new(60);
    let mut recorder = RecordingSender::new();
    for to in ["alice@example.com", "bob@example.com", "alice@example.com"] {
        if limiter.allow_at(to, 1_000) {
            recorder.send(to, "subject", "body");
        }
    }
    assert_eq!(recorder.emails().len(), 2);
}

#[test]
fn zero_cooldown_disables_rate_limiting() {
    let mut limiter = RateLimiter::new(0);
    assert!(limiter.allow_at("alice@example.com", 10));
    assert!(limiter.allow_at("alice@example.com", 10));
    assert!(limiter.allow("alice@example.com"));
}

#[test]
fn limiter_reads_the_clock() {
    let mut limiter = RateLimiter::new(60);
    assert!(limiter.allow("alice@example.com"));
    assert!(!limiter.allow("alice@example.com"));
    assert!(limiter.allow("bob@example.com"));
}
