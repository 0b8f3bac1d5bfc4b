use mcbe_raknet_rs::session::tunables::SessionTunableLimits;
use mcbe_raknet_rs::time::Duration;

#[test]
fn validate_accepts_default_values() {
    let t = SessionTunableLimits::default();
    t.validate_windows_and_timers().expect("default tunables must be valid");
    t.validate_backoff().expect("default tunables must be valid");
    t.validate_queue_limits().expect("default tunables must be valid");
}

#[test]
fn validate_rejects_zero_ack_queue_capacity() {
    let tunables = SessionTunableLimits { ack_queue_capacity: 0, ..SessionTunableLimits::default() };
    let err = tunables
        .validate_windows_and_timers()
        .expect_err("ack_queue_capacity=0 must be rejected");
    assert_eq!(err.config, "SessionTunables");
    assert_eq!(err.field, "ack_queue_capacity");
}

// Own scenarios.

#[test]
fn resend_timeout_must_lie_within_bounds() {
    let t = SessionTunableLimits { resend_rto: Duration::from_millis(5000), ..SessionTunableLimits::default() };
    let err = t.validate_windows_and_timers().unwrap_err();
    assert_eq!(err.field, "resend_rto");
    assert_eq!(err.message, "must be within [min_resend_rto, max_resend_rto]");

    let t = SessionTunableLimits {
        min_resend_rto: Duration::from_millis(3000),
        ..SessionTunableLimits::default()
    };
    assert_eq!(t.validate_windows_and_timers().unwrap_err().field, "min_resend_rto");
}

#[test]
fn first_broken_rule_names_the_error() {
    let t = SessionTunableLimits {
        reliable_window: 0,
        max_order_gap: 0,
        ..SessionTunableLimits::default()
    };
    assert_eq!(t.validate_windows_and_timers().unwrap_err().field, "reliable_window");
}

#[test]
fn backoff_and_queue_rules() {
    let t = SessionTunableLimits {
        congestion_nack_backoff_cooldown: Duration::zero(),
        outgoing_queue_max_bytes: 0,
        ..SessionTunableLimits::default()
    };
    assert_eq!(t.validate_backoff().unwrap_err().field, "congestion_nack_backoff_cooldown");
    assert_eq!(t.validate_queue_limits().unwrap_err().field, "outgoing_queue_max_bytes");
}

#[test]
fn defaults_have_expected_values() {
    let t = SessionTunableLimits::default();
    assert_eq!(t.ack_queue_capacity, 1024);
    assert_eq!(t.reliable_window, 8192);
    assert_eq!(t.split_ttl, Duration::from_millis(30_000));
    assert_eq!(t.resend_rto, Duration::from_millis(250));
    assert_eq!(t.pacing_max_burst_bytes, 128 * 1024);
    assert_eq!(t.outgoing_queue_max_bytes, 8 * 1024 * 1024);
}
