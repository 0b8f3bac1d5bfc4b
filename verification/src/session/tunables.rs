//! The integer and time-span tunables of a session, their defaults and their
//! validation rules. (The congestion and pacing factors are floating point and
//! are checked by the caller between these rules, in the order the rules
//! below name.)
use vstd::prelude::*;

use crate::error::ConfigValidationError;
use crate::protocol::constants::{
    MAX_ACK_SEQUENCES, MAX_INFLIGHT_SPLIT_COMPOUNDS_PER_PEER, MAX_SPLIT_PARTS,
    SPLIT_REASSEMBLY_TTL_MS,
};
use crate::time::Duration;

verus! {

/// The tunables of a session that are counts, sizes, time spans or switches.
#[derive(Debug, Clone, Copy, PartialEq, Eq, Structural)]
pub struct SessionTunableLimits {
    pub ack_queue_capacity: usize,
    pub reliable_window: usize,
    pub split_ttl: Duration,
    pub max_split_parts: u32,
    pub max_concurrent_splits: usize,
    pub max_ordering_channels: usize,
    pub max_ordered_pending_per_channel: usize,
    pub max_order_gap: u32,
    pub resend_rto: Duration,
    pub min_resend_rto: Duration,
    pub max_resend_rto: Duration,
    pub congestion_nack_backoff_cooldown: Duration,
    pub pacing_enabled: bool,
    pub pacing_start_full: bool,
    pub pacing_max_burst_bytes: usize,
    pub outgoing_queue_max_frames: usize,
    pub outgoing_queue_max_bytes: usize,
}

/// The name every session tunable error carries as its configuration.
pub open spec fn tunables_config_name() -> &'static str {
    "SessionTunables"
}

/// The first rule on windows, splits, ordering and resend timers that `t`
/// breaks, as the field and the message, if any.
pub open spec fn window_and_timer_violation(t: SessionTunableLimits) -> Option<
    (&'static str, &'static str),
> {
    if t.ack_queue_capacity == 0 {
        Some(("ack_queue_capacity", "must be >= 1"))
    } else if t.reliable_window == 0 {
        Some(("reliable_window", "must be >= 1"))
    } else if t.split_ttl.nanos == 0 {
        Some(("split_ttl", "must be > 0"))
    } else if t.max_split_parts == 0 {
        Some(("max_split_parts", "must be >= 1"))
    } else if t.max_concurrent_splits == 0 {
        Some(("max_concurrent_splits", "must be >= 1"))
    } else if t.max_ordering_channels == 0 {
        Some(("max_ordering_channels", "must be >= 1"))
    } else if t.max_ordered_pending_per_channel == 0 {
        Some(("max_ordered_pending_per_channel", "must be >= 1"))
    } else if t.max_order_gap == 0 {
        Some(("max_order_gap", "must be >= 1"))
    } else if t.min_resend_rto.nanos == 0 {
        Some(("min_resend_rto", "must be > 0"))
    } else if t.max_resend_rto.nanos == 0 {
        Some(("max_resend_rto", "must be > 0"))
    } else if t.min_resend_rto.nanos > t.max_resend_rto.nanos {
        Some(("min_resend_rto", "must be <= max_resend_rto"))
    } else if t.resend_rto.nanos < t.min_resend_rto.nanos || t.resend_rto.nanos
        > t.max_resend_rto.nanos {
        Some(("resend_rto", "must be within [min_resend_rto, max_resend_rto]"))
    } else {
        None
    }
}

/// The rule on the congestion back-off cooldown, if `t` breaks it.
pub open spec fn backoff_violation(t: SessionTunableLimits) -> Option<(&'static str, &'static str)> {
    if t.congestion_nack_backoff_cooldown.nanos == 0 {
        Some(("congestion_nack_backoff_cooldown", "must be > 0"))
    } else {
        None
    }
}

/// The first rule on pacing bursts and the outgoing queue that `t` breaks, if any.
pub open spec fn queue_violation(t: SessionTunableLimits) -> Option<(&'static str, &'static str)> {
    if t.pacing_max_burst_bytes == 0 {
        Some(("pacing_max_burst_bytes", "must be >= 1"))
    } else if t.outgoing_queue_max_frames == 0 {
        Some(("outgoing_queue_max_frames", "must be >= 1"))
    } else if t.outgoing_queue_max_bytes == 0 {
        Some(("outgoing_queue_max_bytes", "must be >= 1"))
    } else {
        None
    }
}

/// The result a validation step gives for a rule broken or not.
pub open spec fn validation_result(v: Option<(&'static str, &'static str)>) -> Result<
    (),
    ConfigValidationError,
> {
    match v {
        None => Ok(()),
        Some((field, message)) => Err(
            ConfigValidationError { config: tunables_config_name(), field, message },
        ),
    }
}

/// The counts, sizes and spans are all within their rules.
pub open spec fn limits_valid(t: SessionTunableLimits) -> bool {
    &&& t.ack_queue_capacity >= 1
    &&& t.reliable_window >= 1
    &&& t.split_ttl.nanos > 0
    &&& t.max_split_parts >= 1
    &&& t.max_concurrent_splits >= 1
    &&& t.max_ordering_channels >= 1
    &&& t.max_ordered_pending_per_channel >= 1
    &&& t.max_order_gap >= 1
    &&& 0 < t.min_resend_rto.nanos <= t.resend_rto.nanos <= t.max_resend_rto.nanos
    &&& t.congestion_nack_backoff_cooldown.nanos > 0
    &&& t.pacing_max_burst_bytes >= 1
    &&& t.outgoing_queue_max_frames >= 1
    &&& t.outgoing_queue_max_bytes >= 1
}

impl Default for SessionTunableLimits {
    fn default() -> (t: SessionTunableLimits)
        ensures
            t == default_limits(),
    {
        SessionTunableLimits {
            ack_queue_capacity: 1024,
            reliable_window: MAX_ACK_SEQUENCES as usize,
            split_ttl: Duration::from_millis(SPLIT_REASSEMBLY_TTL_MS),
            max_split_parts: MAX_SPLIT_PARTS,
            max_concurrent_splits: MAX_INFLIGHT_SPLIT_COMPOUNDS_PER_PEER,
            max_ordering_channels: 16,
            max_ordered_pending_per_channel: 2048,
            max_order_gap: MAX_ACK_SEQUENCES,
            resend_rto: Duration::from_millis(250),
            min_resend_rto: Duration::from_millis(80),
            max_resend_rto: Duration::from_millis(2_000),
            congestion_nack_backoff_cooldown: Duration::from_millis(50),
            pacing_enabled: true,
            pacing_start_full: true,
            pacing_max_burst_bytes: 128 * 1024,
            outgoing_queue_max_frames: 8192,
            outgoing_queue_max_bytes: 8 * 1024 * 1024,
        }
    }
}

/// The default limits: a 1024-entry ACK queue, a window and an order gap of
/// `MAX_ACK_SEQUENCES`, the split limits of the protocol, 16 ordering channels
/// of 2048 pending frames, a 250 ms resend timeout within [80 ms, 2 s], a
/// 50 ms back-off cooldown, pacing on and starting full with 128 KiB bursts,
/// and an outgoing queue of 8192 frames or 8 MiB.
pub open spec fn default_limits() -> SessionTunableLimits {
    SessionTunableLimits {
        ack_queue_capacity: 1024,
        reliable_window: MAX_ACK_SEQUENCES as usize,
        split_ttl: Duration { nanos: (SPLIT_REASSEMBLY_TTL_MS * 1_000_000) as u128 },
        max_split_parts: MAX_SPLIT_PARTS,
        max_concurrent_splits: MAX_INFLIGHT_SPLIT_COMPOUNDS_PER_PEER,
        max_ordering_channels: 16,
        max_ordered_pending_per_channel: 2048,
        max_order_gap: MAX_ACK_SEQUENCES,
        resend_rto: Duration { nanos: 250_000_000 },
        min_resend_rto: Duration { nanos: 80_000_000 },
        max_resend_rto: Duration { nanos: 2_000_000_000 },
        congestion_nack_backoff_cooldown: Duration { nanos: 50_000_000 },
        pacing_enabled: true,
        pacing_start_full: true,
        pacing_max_burst_bytes: 131072,
        outgoing_queue_max_frames: 8192,
        outgoing_queue_max_bytes: 8388608,
    }
}

fn tunable_error(field: &'static str, message: &'static str) -> (r: Result<(), ConfigValidationError>)
    ensures
        r == validation_result(Some((field, message))),
{
    Err(ConfigValidationError::new("SessionTunables", field, message))
}

impl SessionTunableLimits {
    /// Checks the rules on windows, splits, ordering and resend timers, in
    /// that order; the first rule broken names the error.
    pub fn validate_windows_and_timers(&self) -> (r: Result<(), ConfigValidationError>)
        ensures
            r == validation_result(window_and_timer_violation(*self)),
    {
        if self.ack_queue_capacity == 0 {
            return tunable_error("ack_queue_capacity", "must be >= 1");
        }
        if self.reliable_window == 0 {
            return tunable_error("reliable_window", "must be >= 1");
        }
        if self.split_ttl.is_zero() {
            return tunable_error("split_ttl", "must be > 0");
        }
        if self.max_split_parts == 0 {
            return tunable_error("max_split_parts", "must be >= 1");
        }
        if self.max_concurrent_splits == 0 {
            return tunable_error("max_concurrent_splits", "must be >= 1");
        }
        if self.max_ordering_channels == 0 {
            return tunable_error("max_ordering_channels", "must be >= 1");
        }
        if self.max_ordered_pending_per_channel == 0 {
            return tunable_error("max_ordered_pending_per_channel", "must be >= 1");
        }
        if self.max_order_gap == 0 {
            return tunable_error("max_order_gap", "must be >= 1");
        }
        if self.min_resend_rto.is_zero() {
            return tunable_error("min_resend_rto", "must be > 0");
        }
        if self.max_resend_rto.is_zero() {
            return tunable_error("max_resend_rto", "must be > 0");
        }
        if self.min_resend_rto.nanos > self.max_resend_rto.nanos {
            return tunable_error("min_resend_rto", "must be <= max_resend_rto");
        }
        if self.resend_rto.nanos < self.min_resend_rto.nanos || self.resend_rto.nanos
            > self.max_resend_rto.nanos {
            return tunable_error("resend_rto", "must be within [min_resend_rto, max_resend_rto]");
        }
        Ok(())
    }

    /// Checks that the congestion back-off cooldown is not zero.
    pub fn validate_backoff(&self) -> (r: Result<(), ConfigValidationError>)
        ensures
            r == validation_result(backoff_violation(*self)),
    {
        if self.congestion_nack_backoff_cooldown.is_zero() {
            return tunable_error("congestion_nack_backoff_cooldown", "must be > 0");
        }
        Ok(())
    }

    /// Checks the pacing burst and outgoing queue sizes, in that order.
    pub fn validate_queue_limits(&self) -> (r: Result<(), ConfigValidationError>)
        ensures
            r == validation_result(queue_violation(*self)),
    {
        if self.pacing_max_burst_bytes == 0 {
            return tunable_error("pacing_max_burst_bytes", "must be >= 1");
        }
        if self.outgoing_queue_max_frames == 0 {
            return tunable_error("outgoing_queue_max_frames", "must be >= 1");
        }
        if self.outgoing_queue_max_bytes == 0 {
            return tunable_error("outgoing_queue_max_bytes", "must be >= 1");
        }
        Ok(())
    }
}

/// The three validation steps all pass exactly on limits within their rules.
pub proof fn lemma_validation_accepts_exactly_valid_limits(t: SessionTunableLimits)
    ensures
        (window_and_timer_violation(t) is None && backoff_violation(t) is None
            && queue_violation(t) is None) <==> limits_valid(t),
{
}

/// The default limits are within their rules.
pub proof fn lemma_default_limits_valid()
    ensures
        limits_valid(default_limits()),
{
}

} // verus!
