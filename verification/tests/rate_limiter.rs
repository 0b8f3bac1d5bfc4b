use mcbe_raknet_rs::net::IpAddr;
use mcbe_raknet_rs::time::{Duration, Instant};
use mcbe_raknet_rs::transport::rate_limiter::{
    normalize_duration, normalize_limits, BlockReason, RateLimitDecision, RateLimiter,
};

fn blocked(newly_blocked: bool, reason: BlockReason) -> RateLimitDecision {
    RateLimitDecision::IpBlocked { newly_blocked, reason }
}

#[test]
fn per_ip_limit_transitions_to_blocked() {
    let mut limiter = RateLimiter::new(1, 100, Duration::from_secs(1), Duration::from_secs(5));
    let now = Instant::now();
    let ip = IpAddr::v4(127, 0, 0, 1);

    assert_eq!(limiter.check(ip, now), RateLimitDecision::Allow);
    assert_eq!(limiter.check(ip, now), blocked(true, BlockReason::RateExceeded));
    assert_eq!(limiter.check(ip, now), blocked(false, BlockReason::RateExceeded));
}

#[test]
fn global_limit_applies_across_ips() {
    let mut limiter = RateLimiter::new(10, 1, Duration::from_secs(1), Duration::from_secs(5));
    let now = Instant::now();

    assert_eq!(limiter.check(IpAddr::v4(10, 0, 0, 1), now), RateLimitDecision::Allow);
    assert_eq!(limiter.check(IpAddr::v4(10, 0, 0, 2), now), RateLimitDecision::GlobalLimit);
}

#[test]
fn exception_bypasses_per_ip_limit() {
    let mut limiter = RateLimiter::new(1, 100, Duration::from_secs(1), Duration::from_secs(5));
    let now = Instant::now();
    let ip = IpAddr::v4(127, 0, 0, 1);
    limiter.add_exception(ip);

    assert_eq!(limiter.check(ip, now), RateLimitDecision::Allow);
    assert_eq!(limiter.check(ip, now), RateLimitDecision::Allow);
    let metrics = limiter.metrics_snapshot();
    assert_eq!(metrics.exception_addresses, 1);
    assert_eq!(metrics.blocked_addresses, 0);
}

#[test]
fn scheduled_unblock_happens_on_tick() {
    let mut limiter = RateLimiter::new(1, 100, Duration::from_secs(1), Duration::from_secs(2));
    let now = Instant::now();
    let ip = IpAddr::v4(10, 0, 0, 1);

    assert_eq!(limiter.check(ip, now), RateLimitDecision::Allow);
    assert_eq!(limiter.check(ip, now), blocked(true, BlockReason::RateExceeded));
    assert_eq!(limiter.metrics_snapshot().blocked_addresses, 1);

    limiter.tick(now.add_duration(Duration::from_secs(3)));
    assert_eq!(limiter.metrics_snapshot().blocked_addresses, 0);
}

#[test]
fn explicit_unblock_clears_block_state() {
    let mut limiter = RateLimiter::new(10, 100, Duration::from_secs(1), Duration::from_secs(5));
    let now = Instant::now();
    let ip = IpAddr::v4(192, 168, 1, 9);

    assert!(limiter.block_address_for(ip, now, Duration::from_secs(30)));
    assert_eq!(limiter.metrics_snapshot().blocked_addresses, 1);
    assert!(limiter.unblock_address(ip));
    assert_eq!(limiter.metrics_snapshot().blocked_addresses, 0);
}

#[test]
fn window_rotation_resets_global_and_per_ip_counters() {
    let mut limiter = RateLimiter::new(1, 3, Duration::from_secs(1), Duration::from_millis(400));
    let start = Instant::now();
    let ip_a = IpAddr::v4(10, 1, 0, 1);
    let ip_b = IpAddr::v4(10, 1, 0, 2);
    let ip_c = IpAddr::v4(10, 1, 0, 3);

    assert_eq!(limiter.check(ip_a, start), RateLimitDecision::Allow);
    assert_eq!(limiter.check(ip_b, start), RateLimitDecision::Allow);
    assert_eq!(limiter.check(ip_b, start), blocked(true, BlockReason::RateExceeded));

    let next_window = start.add_duration(Duration::from_secs(2));
    assert_eq!(limiter.check(ip_b, next_window), RateLimitDecision::Allow);
    assert_eq!(limiter.check(ip_c, next_window), RateLimitDecision::Allow);
}

#[test]
fn removing_exception_restores_per_ip_enforcement() {
    let mut limiter = RateLimiter::new(1, 100, Duration::from_secs(1), Duration::from_secs(5));
    let start = Instant::now();
    let ip = IpAddr::v4(172, 16, 0, 9);

    limiter.add_exception(ip);
    assert_eq!(limiter.check(ip, start), RateLimitDecision::Allow);
    assert_eq!(limiter.check(ip, start), RateLimitDecision::Allow);

    limiter.remove_exception(ip);
    let next_window = start.add_duration(Duration::from_secs(2));
    assert_eq!(limiter.check(ip, next_window), RateLimitDecision::Allow);
    assert_eq!(limiter.check(ip, next_window), blocked(true, BlockReason::RateExceeded));
}

#[test]
fn adding_exception_unblocks_address_and_updates_metrics() {
    let mut limiter = RateLimiter::new(1, 100, Duration::from_secs(1), Duration::from_secs(30));
    let now = Instant::now();
    let ip = IpAddr::v4(203, 0, 113, 10);

    assert_eq!(limiter.check(ip, now), RateLimitDecision::Allow);
    assert_eq!(limiter.check(ip, now), blocked(true, BlockReason::RateExceeded));

    limiter.add_exception(ip);
    let metrics = limiter.metrics_snapshot();
    assert_eq!(metrics.blocked_addresses, 0);
    assert_eq!(metrics.exception_addresses, 1);
    assert_eq!(metrics.addresses_blocked, 1);
    assert_eq!(metrics.addresses_unblocked, 1);

    assert_eq!(limiter.check(ip, now), RateLimitDecision::Allow);
}

#[test]
fn update_limits_clamps_zero_values_and_resets_window_state() {
    let mut limiter = RateLimiter::new(100, 100, Duration::from_secs(2), Duration::from_secs(5));
    let start = Instant::now();
    let ip = IpAddr::v4(10, 2, 0, 1);

    assert_eq!(limiter.check(ip, start), RateLimitDecision::Allow);

    limiter.update_limits(0, 0, Duration::zero(), Duration::zero());
    let cfg = limiter.config_snapshot();
    assert_eq!(cfg.per_ip_limit, 1);
    assert_eq!(cfg.global_limit, 1);
    assert_eq!(cfg.window, Duration::from_millis(1));
    assert_eq!(cfg.block_duration, Duration::from_millis(1));

    assert_eq!(limiter.check(ip, start), RateLimitDecision::Allow);
    assert_eq!(limiter.check(ip, start), RateLimitDecision::GlobalLimit);
}

#[test]
fn permanent_block_stays_until_explicit_unblock() {
    let mut limiter = RateLimiter::new(10, 10, Duration::from_millis(10), Duration::from_secs(1));
    let ip = IpAddr::v4(203, 0, 113, 42);
    let now = Instant::now();

    assert!(limiter.block_address(ip));
    assert_eq!(limiter.check(ip, now), blocked(false, BlockReason::Manual));

    limiter.tick(now.add_duration(Duration::from_secs(60)));
    assert_eq!(
        limiter.check(ip, now.add_duration(Duration::from_secs(61))),
        blocked(false, BlockReason::Manual)
    );

    assert!(limiter.unblock_address(ip));
    assert_eq!(
        limiter.check(ip, now.add_duration(Duration::from_secs(62))),
        RateLimitDecision::Allow
    );
}

#[test]
fn reason_specific_block_metrics_are_tracked() {
    let mut limiter = RateLimiter::new(1, 100, Duration::from_secs(1), Duration::from_secs(5));
    let now = Instant::now();

    let rate_ip = IpAddr::v4(10, 20, 0, 1);
    let manual_ip = IpAddr::v4(10, 20, 0, 2);
    let handshake_ip = IpAddr::v4(10, 20, 0, 3);
    let cookie_ip = IpAddr::v4(10, 20, 0, 4);

    assert_eq!(limiter.check(rate_ip, now), RateLimitDecision::Allow);
    assert_eq!(limiter.check(rate_ip, now), blocked(true, BlockReason::RateExceeded));

    assert!(limiter.block_address(manual_ip));
    assert_eq!(limiter.check(manual_ip, now), blocked(false, BlockReason::Manual));

    assert!(limiter.block_address_for_with_reason(
        handshake_ip,
        now,
        Duration::from_secs(30),
        BlockReason::HandshakeHeuristic
    ));
    assert_eq!(limiter.check(handshake_ip, now), blocked(false, BlockReason::HandshakeHeuristic));

    assert!(limiter.block_address_for_with_reason(
        cookie_ip,
        now,
        Duration::from_secs(30),
        BlockReason::CookieMismatchGuard
    ));
    assert_eq!(limiter.check(cookie_ip, now), blocked(false, BlockReason::CookieMismatchGuard));

    let metrics = limiter.metrics_snapshot();
    assert_eq!(metrics.ip_block_hits, 4);
    assert_eq!(metrics.ip_block_hits_rate_exceeded, 1);
    assert_eq!(metrics.ip_block_hits_manual, 1);
    assert_eq!(metrics.ip_block_hits_handshake_heuristic, 1);
    assert_eq!(metrics.ip_block_hits_cookie_mismatch_guard, 1);
    assert_eq!(metrics.addresses_blocked, 4);
    assert_eq!(metrics.addresses_blocked_rate_exceeded, 1);
    assert_eq!(metrics.addresses_blocked_manual, 1);
    assert_eq!(metrics.addresses_blocked_handshake_heuristic, 1);
    assert_eq!(metrics.addresses_blocked_cookie_mismatch_guard, 1);
}

// Own scenarios.

#[test]
fn exempt_address_cannot_be_blocked() {
    let mut limiter = RateLimiter::new(1, 100, Duration::from_secs(1), Duration::from_secs(5));
    let ip = IpAddr::v4(10, 9, 9, 9);
    limiter.add_exception(ip);
    assert!(!limiter.block_address(ip));
    assert!(!limiter.block_address_for(ip, Instant::now(), Duration::from_secs(1)));
    assert_eq!(limiter.metrics_snapshot().blocked_addresses, 0);
    assert_eq!(limiter.metrics_snapshot().addresses_blocked, 0);
}

#[test]
fn blocking_twice_counts_one_new_block() {
    let mut limiter = RateLimiter::new(1, 100, Duration::from_secs(1), Duration::from_secs(5));
    let ip = IpAddr::v4(10, 9, 9, 8);
    assert!(limiter.block_address(ip));
    assert!(!limiter.block_address_with_reason(ip, BlockReason::HandshakeHeuristic));
    let m = limiter.metrics_snapshot();
    assert_eq!(m.addresses_blocked, 1);
    assert_eq!(m.addresses_blocked_manual, 1);
    assert_eq!(m.addresses_blocked_handshake_heuristic, 0);
    assert_eq!(limiter.check(ip, Instant::now()), blocked(false, BlockReason::HandshakeHeuristic));
}

#[test]
fn unblocking_an_unblocked_address_reports_false() {
    let mut limiter = RateLimiter::new(1, 100, Duration::from_secs(1), Duration::from_secs(5));
    assert!(!limiter.unblock_address(IpAddr::v4(1, 2, 3, 4)));
    assert_eq!(limiter.metrics_snapshot().addresses_unblocked, 0);
}

#[test]
fn timed_block_expires_at_its_end_and_counts_as_unblocked() {
    let mut limiter = RateLimiter::new(1, 100, Duration::from_secs(1), Duration::from_secs(5));
    let now = Instant::from_nanos(1_000_000_000_000);
    let ip = IpAddr::v4(10, 3, 3, 3);
    assert!(limiter.block_address_for(ip, now, Duration::zero()));
    // a zero duration counts as one millisecond
    limiter.tick(now.add_duration(Duration::from_nanos(999_999)));
    assert_eq!(limiter.metrics_snapshot().blocked_addresses, 1);
    limiter.tick(now.add_duration(Duration::from_millis(1)));
    assert_eq!(limiter.metrics_snapshot().blocked_addresses, 0);
    assert_eq!(limiter.metrics_snapshot().addresses_unblocked, 1);
}

#[test]
fn global_limit_hits_are_counted() {
    let mut limiter = RateLimiter::new(5, 1, Duration::from_secs(10), Duration::from_secs(5));
    let now = Instant::now();
    assert_eq!(limiter.check(IpAddr::v4(1, 1, 1, 1), now), RateLimitDecision::Allow);
    assert_eq!(limiter.check(IpAddr::v4(1, 1, 1, 2), now), RateLimitDecision::GlobalLimit);
    assert_eq!(limiter.check(IpAddr::v4(1, 1, 1, 3), now), RateLimitDecision::GlobalLimit);
    assert_eq!(limiter.metrics_snapshot().global_limit_hits, 2);
}

#[test]
fn setters_clamp_and_reset() {
    let mut limiter = RateLimiter::new(3, 3, Duration::from_secs(1), Duration::from_secs(5));
    limiter.set_per_ip_limit(0);
    limiter.set_global_limit(0);
    limiter.set_window(Duration::zero());
    limiter.set_block_duration(Duration::zero());
    let cfg = limiter.config_snapshot();
    assert_eq!(cfg.per_ip_limit, 1);
    assert_eq!(cfg.global_limit, 1);
    assert_eq!(cfg.window, Duration::from_millis(1));
    assert_eq!(cfg.block_duration, Duration::from_millis(1));
    limiter.set_per_ip_limit(7);
    assert_eq!(limiter.config_snapshot().per_ip_limit, 7);
}

#[test]
fn normalize_helpers() {
    assert_eq!(
        normalize_duration(Duration::zero(), Duration::from_millis(1)),
        Duration::from_millis(1)
    );
    assert_eq!(
        normalize_duration(Duration::from_secs(2), Duration::from_millis(1)),
        Duration::from_secs(2)
    );
    let (p, g, w, b) = normalize_limits(0, 9, Duration::zero(), Duration::from_secs(3));
    assert_eq!(p, 1);
    assert_eq!(g, 9);
    assert_eq!(w, Duration::from_millis(1));
    assert_eq!(b, Duration::from_secs(3));
}

#[test]
fn window_started_at_a_given_instant_rotates_a_window_later() {
    let start = Instant::from_nanos(5_000_000_000);
    let mut limiter = RateLimiter::new_at(1, 3, Duration::from_secs(1), Duration::from_millis(400), start);
    let ip_a = IpAddr::v4(10, 1, 0, 1);
    let ip_b = IpAddr::v4(10, 1, 0, 2);
    let ip_c = IpAddr::v4(10, 1, 0, 3);
    assert_eq!(limiter.check(ip_a, start), RateLimitDecision::Allow);
    assert_eq!(limiter.check(ip_b, start), RateLimitDecision::Allow);
    assert_eq!(limiter.check(ip_b, start), blocked(true, BlockReason::RateExceeded));
    let next_window = start.add_duration(Duration::from_secs(2));
    assert_eq!(limiter.check(ip_b, next_window), RateLimitDecision::Allow);
    assert_eq!(limiter.check(ip_c, next_window), RateLimitDecision::Allow);
}

#[test]
fn updating_limits_at_an_instant_starts_the_window_there() {
    let start = Instant::from_nanos(1_000_000_000);
    let mut limiter = RateLimiter::new_at(1, 100, Duration::from_secs(1), Duration::from_secs(5), start);
    let ip = IpAddr::v4(192, 168, 3, 4);
    assert_eq!(limiter.check(ip, start), RateLimitDecision::Allow);
    let later = start.add_duration(Duration::from_millis(500));
    limiter.update_limits_at(2, 100, Duration::from_secs(1), Duration::from_secs(5), later);
    assert_eq!(limiter.config_snapshot().per_ip_limit, 2);
    // the per-address count restarted with the new window
    assert_eq!(limiter.check(IpAddr::v4(192, 168, 3, 5), later), RateLimitDecision::Allow);
    assert_eq!(limiter.check(IpAddr::v4(192, 168, 3, 5), later), RateLimitDecision::Allow);
    assert_eq!(
        limiter.check(IpAddr::v4(192, 168, 3, 5), later),
        blocked(true, BlockReason::RateExceeded)
    );
}
