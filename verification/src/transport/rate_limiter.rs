//! Admission control for incoming datagrams: a global and a per-address budget
//! per time window, addresses blocked for a while or for good, and addresses
//! exempt from every limit.
use vstd::prelude::*;

use crate::net::IpAddr;
use crate::table::{
    keys_distinct, lemma_table_len, lemma_table_position, lemma_table_remove, lemma_table_value,
    table_find, table_map, table_set, table_take,
};
use crate::time::{elapsed_between, instant_after, Duration, Instant};

verus! {

/// The shortest window a limiter counts in, in nanoseconds (one millisecond).
pub const MIN_RATE_WINDOW_NANOS: u128 = 1_000_000;

/// The shortest time an address is blocked for, in nanoseconds (one millisecond).
pub const MIN_BLOCK_DURATION_NANOS: u128 = 1_000_000;

/// Why an address was blocked.
#[derive(Debug, Clone, Copy, PartialEq, Eq, Structural)]
pub enum BlockReason {
    RateExceeded,
    Manual,
    HandshakeHeuristic,
    CookieMismatchGuard,
}

/// What the limiter decided for one datagram.
#[derive(Debug, Clone, Copy, PartialEq, Eq, Structural)]
pub enum RateLimitDecision {
    Allow,
    GlobalLimit,
    IpBlocked { newly_blocked: bool, reason: BlockReason },
}

/// How many datagrams an address sent in the current window.
#[derive(Debug, Clone, Copy, PartialEq, Eq, Structural)]
pub struct IpWindowState {
    pub count: usize,
}

/// A block: until when (`None`: until lifted by hand) and why.
#[derive(Debug, Clone, Copy, PartialEq, Eq, Structural)]
pub struct BlockState {
    pub blocked_until: Option<Instant>,
    pub reason: BlockReason,
}

/// The limiter's counters; each saturates at `u64::MAX`.
#[derive(Debug, Clone, Copy, PartialEq, Eq, Structural)]
pub struct RateLimiterMetrics {
    pub global_limit_hits: u64,
    pub ip_block_hits: u64,
    pub ip_block_hits_rate_exceeded: u64,
    pub ip_block_hits_manual: u64,
    pub ip_block_hits_handshake_heuristic: u64,
    pub ip_block_hits_cookie_mismatch_guard: u64,
    pub addresses_blocked: u64,
    pub addresses_blocked_rate_exceeded: u64,
    pub addresses_blocked_manual: u64,
    pub addresses_blocked_handshake_heuristic: u64,
    pub addresses_blocked_cookie_mismatch_guard: u64,
    pub addresses_unblocked: u64,
}

impl Default for RateLimiterMetrics {
    fn default() -> (m: RateLimiterMetrics)
        ensures
            m == zero_metrics(),
    {
        RateLimiterMetrics {
            global_limit_hits: 0,
            ip_block_hits: 0,
            ip_block_hits_rate_exceeded: 0,
            ip_block_hits_manual: 0,
            ip_block_hits_handshake_heuristic: 0,
            ip_block_hits_cookie_mismatch_guard: 0,
            addresses_blocked: 0,
            addresses_blocked_rate_exceeded: 0,
            addresses_blocked_manual: 0,
            addresses_blocked_handshake_heuristic: 0,
            addresses_blocked_cookie_mismatch_guard: 0,
            addresses_unblocked: 0,
        }
    }
}

/// The counters, with the number of blocked and of exempt addresses.
#[derive(Debug, Clone, Copy, PartialEq, Eq, Structural)]
pub struct RateLimiterMetricsSnapshot {
    pub global_limit_hits: u64,
    pub ip_block_hits: u64,
    pub ip_block_hits_rate_exceeded: u64,
    pub ip_block_hits_manual: u64,
    pub ip_block_hits_handshake_heuristic: u64,
    pub ip_block_hits_cookie_mismatch_guard: u64,
    pub addresses_blocked: u64,
    pub addresses_blocked_rate_exceeded: u64,
    pub addresses_blocked_manual: u64,
    pub addresses_blocked_handshake_heuristic: u64,
    pub addresses_blocked_cookie_mismatch_guard: u64,
    pub addresses_unblocked: u64,
    pub blocked_addresses: usize,
    pub exception_addresses: usize,
}

/// The limits a limiter works with.
#[derive(Debug, Clone, Copy, PartialEq, Eq, Structural)]
pub struct RateLimiterConfigSnapshot {
    pub per_ip_limit: usize,
    pub global_limit: usize,
    pub window: Duration,
    pub block_duration: Duration,
}

pub struct RateLimiter {
    window_start: Instant,
    window_count: usize,
    per_ip_limit: usize,
    global_limit: usize,
    window: Duration,
    block_duration: Duration,
    ip_state: Vec<(IpAddr, IpWindowState)>,
    blocked: Vec<(IpAddr, BlockState)>,
    exceptions: Vec<(IpAddr, ())>,
    metrics: RateLimiterMetrics,
}

/// A limiter's state: the current window, the limits, the per-address counts,
/// the blocks, the exempt addresses and the counters.
#[verifier::ext_equal]
pub struct RateLimiterView {
    pub window_start: Instant,
    pub window_count: usize,
    pub per_ip_limit: usize,
    pub global_limit: usize,
    pub window: Duration,
    pub block_duration: Duration,
    pub ip_state: Map<IpAddr, IpWindowState>,
    pub blocked: Map<IpAddr, BlockState>,
    pub exceptions: Set<IpAddr>,
    pub metrics: RateLimiterMetrics,
}

impl View for RateLimiter {
    type V = RateLimiterView;

    closed spec fn view(&self) -> RateLimiterView {
        RateLimiterView {
            window_start: self.window_start,
            window_count: self.window_count,
            per_ip_limit: self.per_ip_limit,
            global_limit: self.global_limit,
            window: self.window,
            block_duration: self.block_duration,
            ip_state: table_map(self.ip_state@),
            blocked: table_map(self.blocked@),
            exceptions: table_map(self.exceptions@).dom(),
            metrics: self.metrics,
        }
    }
}

pub open spec fn zero_metrics() -> RateLimiterMetrics {
    RateLimiterMetrics {
        global_limit_hits: 0,
        ip_block_hits: 0,
        ip_block_hits_rate_exceeded: 0,
        ip_block_hits_manual: 0,
        ip_block_hits_handshake_heuristic: 0,
        ip_block_hits_cookie_mismatch_guard: 0,
        addresses_blocked: 0,
        addresses_blocked_rate_exceeded: 0,
        addresses_blocked_manual: 0,
        addresses_blocked_handshake_heuristic: 0,
        addresses_blocked_cookie_mismatch_guard: 0,
        addresses_unblocked: 0,
    }
}

/// `x + y`, or `u64::MAX` when that does not fit.
pub open spec fn sat_add(x: u64, y: nat) -> u64 {
    if x + y <= u64::MAX {
        (x + y) as u64
    } else {
        u64::MAX
    }
}

/// The counters after a datagram from a blocked address (blocked for `reason`) was refused.
pub open spec fn metrics_after_hit(m: RateLimiterMetrics, reason: BlockReason) -> RateLimiterMetrics {
    RateLimiterMetrics {
        ip_block_hits: sat_add(m.ip_block_hits, 1),
        ip_block_hits_rate_exceeded: if reason == BlockReason::RateExceeded {
            sat_add(m.ip_block_hits_rate_exceeded, 1)
        } else {
            m.ip_block_hits_rate_exceeded
        },
        ip_block_hits_manual: if reason == BlockReason::Manual {
            sat_add(m.ip_block_hits_manual, 1)
        } else {
            m.ip_block_hits_manual
        },
        ip_block_hits_handshake_heuristic: if reason == BlockReason::HandshakeHeuristic {
            sat_add(m.ip_block_hits_handshake_heuristic, 1)
        } else {
            m.ip_block_hits_handshake_heuristic
        },
        ip_block_hits_cookie_mismatch_guard: if reason == BlockReason::CookieMismatchGuard {
            sat_add(m.ip_block_hits_cookie_mismatch_guard, 1)
        } else {
            m.ip_block_hits_cookie_mismatch_guard
        },
        ..m
    }
}

/// The counters after an address that was not blocked became blocked for `reason`.
pub open spec fn metrics_after_new_block(
    m: RateLimiterMetrics,
    reason: BlockReason,
) -> RateLimiterMetrics {
    RateLimiterMetrics {
        addresses_blocked: sat_add(m.addresses_blocked, 1),
        addresses_blocked_rate_exceeded: if reason == BlockReason::RateExceeded {
            sat_add(m.addresses_blocked_rate_exceeded, 1)
        } else {
            m.addresses_blocked_rate_exceeded
        },
        addresses_blocked_manual: if reason == BlockReason::Manual {
            sat_add(m.addresses_blocked_manual, 1)
        } else {
            m.addresses_blocked_manual
        },
        addresses_blocked_handshake_heuristic: if reason == BlockReason::HandshakeHeuristic {
            sat_add(m.addresses_blocked_handshake_heuristic, 1)
        } else {
            m.addresses_blocked_handshake_heuristic
        },
        addresses_blocked_cookie_mismatch_guard: if reason == BlockReason::CookieMismatchGuard {
            sat_add(m.addresses_blocked_cookie_mismatch_guard, 1)
        } else {
            m.addresses_blocked_cookie_mismatch_guard
        },
        ..m
    }
}

/// The counters after `n` addresses were unblocked.
pub open spec fn metrics_after_unblock(m: RateLimiterMetrics, n: nat) -> RateLimiterMetrics {
    RateLimiterMetrics { addresses_unblocked: sat_add(m.addresses_unblocked, n), ..m }
}

/// `minimum` in place of a zero duration.
pub open spec fn normalized_duration(value: Duration, minimum: Duration) -> Duration {
    if value.nanos == 0 {
        minimum
    } else {
        value
    }
}

/// At least one.
pub open spec fn at_least_one(n: usize) -> usize {
    if n == 0 {
        1
    } else {
        n
    }
}

pub open spec fn min_rate_window() -> Duration {
    Duration { nanos: MIN_RATE_WINDOW_NANOS }
}

pub open spec fn min_block_duration() -> Duration {
    Duration { nanos: MIN_BLOCK_DURATION_NANOS }
}

/// A new limiter: the limits given (zero ones raised to their minimum), no
/// blocks, no exempt addresses, zero counters, and a window starting at `start`.
pub open spec fn fresh_limiter(
    per_ip_limit: usize,
    global_limit: usize,
    window: Duration,
    block_duration: Duration,
    start: Instant,
) -> RateLimiterView {
    RateLimiterView {
        window_start: start,
        window_count: 0,
        per_ip_limit: at_least_one(per_ip_limit),
        global_limit: at_least_one(global_limit),
        window: normalized_duration(window, min_rate_window()),
        block_duration: normalized_duration(block_duration, min_block_duration()),
        ip_state: Map::empty(),
        blocked: Map::empty(),
        exceptions: Set::empty(),
        metrics: zero_metrics(),
    }
}

/// A new window that starts at `now`, with nothing counted.
pub open spec fn window_reset(v: RateLimiterView, now: Instant) -> RateLimiterView {
    RateLimiterView { window_start: now, window_count: 0, ip_state: Map::empty(), ..v }
}

/// A timed block that has run out at `now`.
pub open spec fn block_expired(b: BlockState, now: Instant) -> bool {
    b.blocked_until matches Some(until) && now.nanos >= until.nanos
}

/// The blocks that still hold at `now`.
pub open spec fn blocks_in_force(blocked: Map<IpAddr, BlockState>, now: Instant) -> Map<
    IpAddr,
    BlockState,
> {
    Map::new(|ip: IpAddr| blocked.contains_key(ip) && !block_expired(blocked[ip], now), |ip: IpAddr| blocked[ip])
}

/// The window rotated if it ran out by `now`.
pub open spec fn window_rotated(v: RateLimiterView, now: Instant) -> RateLimiterView {
    if elapsed_between(v.window_start, now).nanos < v.window.nanos {
        v
    } else {
        window_reset(v, now)
    }
}

/// The state after time advanced to `now`: the window rotated if it ran out,
/// the blocks that ran out lifted and counted as unblocked.
pub open spec fn ticked(v: RateLimiterView, now: Instant) -> RateLimiterView {
    let r = window_rotated(v, now);
    let kept = blocks_in_force(r.blocked, now);
    RateLimiterView {
        blocked: kept,
        metrics: metrics_after_unblock(r.metrics, (r.blocked.dom().len() - kept.dom().len()) as nat),
        ..r
    }
}

/// The state after `ip` was blocked (by `block_with`) at `until` for `reason`,
/// if it is not exempt; and whether it was not blocked before.
pub open spec fn blocked_with(
    v: RateLimiterView,
    ip: IpAddr,
    until: Option<Instant>,
    reason: BlockReason,
) -> (bool, RateLimiterView) {
    if v.exceptions.contains(ip) {
        (false, v)
    } else {
        let newly = !v.blocked.contains_key(ip);
        (
            newly,
            RateLimiterView {
                blocked: v.blocked.insert(ip, BlockState { blocked_until: until, reason }),
                metrics: if newly {
                    metrics_after_new_block(v.metrics, reason)
                } else {
                    v.metrics
                },
                ..v
            },
        )
    }
}

/// The decision on one datagram from `ip` at `now`, and the state after it.
pub open spec fn checked(v: RateLimiterView, ip: IpAddr, now: Instant) -> (
    RateLimitDecision,
    RateLimiterView,
) {
    let t = ticked(v, now);
    if t.exceptions.contains(ip) {
        (
            RateLimitDecision::Allow,
            RateLimiterView { window_count: (t.window_count + 1) as usize, ..t },
        )
    } else if t.blocked.contains_key(ip) {
        let reason = t.blocked[ip].reason;
        (
            RateLimitDecision::IpBlocked { newly_blocked: false, reason },
            RateLimiterView { metrics: metrics_after_hit(t.metrics, reason), ..t },
        )
    } else if t.window_count >= t.global_limit {
        (
            RateLimitDecision::GlobalLimit,
            RateLimiterView {
                metrics: RateLimiterMetrics {
                    global_limit_hits: sat_add(t.metrics.global_limit_hits, 1),
                    ..t.metrics
                },
                ..t
            },
        )
    } else {
        let count: usize = if t.ip_state.contains_key(ip) {
            t.ip_state[ip].count
        } else {
            0
        };
        if count >= t.per_ip_limit {
            let until = instant_after(now, normalized_duration(t.block_duration, min_block_duration()));
            let b = blocked_with(t, ip, Some(until), BlockReason::RateExceeded);
            (
                RateLimitDecision::IpBlocked { newly_blocked: b.0, reason: BlockReason::RateExceeded },
                RateLimiterView {
                    metrics: metrics_after_hit(b.1.metrics, BlockReason::RateExceeded),
                    ..b.1
                },
            )
        } else {
            (
                RateLimitDecision::Allow,
                RateLimiterView {
                    window_count: (t.window_count + 1) as usize,
                    ip_state: t.ip_state.insert(ip, IpWindowState { count: (count + 1) as usize }),
                    ..t
                },
            )
        }
    }
}

/// The snapshot of counters `m` with `blocked` blocked and `exempt` exempt addresses.
pub open spec fn metrics_snapshot_of(
    m: RateLimiterMetrics,
    blocked: nat,
    exempt: nat,
) -> RateLimiterMetricsSnapshot {
    RateLimiterMetricsSnapshot {
        global_limit_hits: m.global_limit_hits,
        ip_block_hits: m.ip_block_hits,
        ip_block_hits_rate_exceeded: m.ip_block_hits_rate_exceeded,
        ip_block_hits_manual: m.ip_block_hits_manual,
        ip_block_hits_handshake_heuristic: m.ip_block_hits_handshake_heuristic,
        ip_block_hits_cookie_mismatch_guard: m.ip_block_hits_cookie_mismatch_guard,
        addresses_blocked: m.addresses_blocked,
        addresses_blocked_rate_exceeded: m.addresses_blocked_rate_exceeded,
        addresses_blocked_manual: m.addresses_blocked_manual,
        addresses_blocked_handshake_heuristic: m.addresses_blocked_handshake_heuristic,
        addresses_blocked_cookie_mismatch_guard: m.addresses_blocked_cookie_mismatch_guard,
        addresses_unblocked: m.addresses_unblocked,
        blocked_addresses: blocked as usize,
        exception_addresses: exempt as usize,
    }
}

/// The state after the block on `ip`, if any, is lifted by hand.
pub open spec fn after_unblock(v: RateLimiterView, ip: IpAddr) -> RateLimiterView {
    RateLimiterView {
        blocked: v.blocked.remove(ip),
        metrics: if v.blocked.contains_key(ip) {
            metrics_after_unblock(v.metrics, 1)
        } else {
            v.metrics
        },
        ..v
    }
}

/// The state after `ip` is made exempt, its block, if any, lifted.
pub open spec fn after_add_exception(v: RateLimiterView, ip: IpAddr) -> RateLimiterView {
    RateLimiterView { exceptions: v.exceptions.insert(ip), ..after_unblock(v, ip) }
}

/// The limits a limiter keeps: each count and each span at least its minimum.
pub open spec fn limits_valid(v: RateLimiterView) -> bool {
    &&& v.per_ip_limit >= 1
    &&& v.global_limit >= 1
    &&& v.window.nanos >= 1
    &&& v.block_duration.nanos >= 1
}

/// What holds of every limiter: valid limits, no exempt address blocked, no
/// address counted past the per-address limit, and finitely many entries.
pub open spec fn view_wf(v: RateLimiterView) -> bool {
    &&& limits_valid(v)
    &&& forall|ip: IpAddr| #[trigger] v.exceptions.contains(ip) ==> !v.blocked.contains_key(ip)
    &&& forall|ip: IpAddr| #[trigger] v.ip_state.contains_key(ip) ==> v.ip_state[ip].count
        <= v.per_ip_limit
    &&& v.ip_state.dom().finite()
    &&& v.blocked.dom().finite()
    &&& v.exceptions.finite()
}

/// `minimum` in place of a zero duration.
pub fn normalize_duration(value: Duration, minimum: Duration) -> (d: Duration)
    ensures
        d == normalized_duration(value, minimum),
{
    if value.is_zero() {
        minimum
    } else {
        value
    }
}

/// Each limit raised to at least one, each span to at least one millisecond.
pub fn normalize_limits(
    per_ip_limit: usize,
    global_limit: usize,
    window: Duration,
    block_duration: Duration,
) -> (r: (usize, usize, Duration, Duration))
    ensures
        r == (
            at_least_one(per_ip_limit),
            at_least_one(global_limit),
            normalized_duration(window, min_rate_window()),
            normalized_duration(block_duration, min_block_duration()),
        ),
{
    (
        if per_ip_limit == 0 {
            1
        } else {
            per_ip_limit
        },
        if global_limit == 0 {
            1
        } else {
            global_limit
        },
        normalize_duration(window, Duration::from_nanos(MIN_RATE_WINDOW_NANOS)),
        normalize_duration(block_duration, Duration::from_nanos(MIN_BLOCK_DURATION_NANOS)),
    )
}

impl RateLimiter {
    /// The tables hold distinct addresses, and the state is well formed.
    pub closed spec fn wf(&self) -> bool {
        &&& keys_distinct(self.ip_state@)
        &&& keys_distinct(self.blocked@)
        &&& keys_distinct(self.exceptions@)
        &&& view_wf(self@)
    }

    proof fn lemma_finite(&self)
        requires
            keys_distinct(self.ip_state@),
            keys_distinct(self.blocked@),
            keys_distinct(self.exceptions@),
        ensures
            self@.ip_state.dom().finite(),
            self@.blocked.dom().finite(),
            self@.exceptions.finite(),
            self@.blocked.dom().len() == self.blocked@.len(),
            self@.exceptions.len() == self.exceptions@.len(),
    {
        lemma_table_len(self.ip_state@);
        lemma_table_len(self.blocked@);
        lemma_table_len(self.exceptions@);
    }

    /// A limiter with the given limits (zero ones raised to their minimum), no
    /// blocks, no exempt addresses, zero counters, and a window that starts
    /// now: the clock is read, and the rest is `new_at` (what the clock reads
    /// is not stated).
    pub fn new(per_ip_limit: usize, global_limit: usize, window: Duration, block_duration: Duration) -> (r: RateLimiter)
        ensures
            r.wf(),
            r@ == fresh_limiter(per_ip_limit, global_limit, window, block_duration, r@.window_start),
    {
        Self::new_at(per_ip_limit, global_limit, window, block_duration, Instant::now())
    }

    /// A limiter as `new` makes it, its window starting at `now`.
    pub fn new_at(
        per_ip_limit: usize,
        global_limit: usize,
        window: Duration,
        block_duration: Duration,
        now: Instant,
    ) -> (r: RateLimiter)
        ensures
            r.wf(),
            r@ == fresh_limiter(per_ip_limit, global_limit, window, block_duration, now),
    {
        let (per_ip_limit, global_limit, window, block_duration) = normalize_limits(
            per_ip_limit,
            global_limit,
            window,
            block_duration,
        );
        let r = RateLimiter {
            window_start: now,
            window_count: 0,
            per_ip_limit,
            global_limit,
            window,
            block_duration,
            ip_state: Vec::new(),
            blocked: Vec::new(),
            exceptions: Vec::new(),
            metrics: RateLimiterMetrics::default(),
        };
        proof {
            assert(r@.ip_state =~= Map::empty());
            assert(r@.blocked =~= Map::empty());
            assert(r@.exceptions =~= Set::empty());
        }
        r
    }

    fn record_ip_block_hit(&mut self, reason: BlockReason)
        ensures
            *final(self) == (RateLimiter { metrics: metrics_after_hit(old(self).metrics, reason), ..*old(self) }),
    {
        self.metrics.ip_block_hits = self.metrics.ip_block_hits.saturating_add(1);
        match reason {
            BlockReason::RateExceeded => {
                self.metrics.ip_block_hits_rate_exceeded =
                self.metrics.ip_block_hits_rate_exceeded.saturating_add(1);
            },
            BlockReason::Manual => {
                self.metrics.ip_block_hits_manual = self.metrics.ip_block_hits_manual.saturating_add(1);
            },
            BlockReason::HandshakeHeuristic => {
                self.metrics.ip_block_hits_handshake_heuristic =
                self.metrics.ip_block_hits_handshake_heuristic.saturating_add(1);
            },
            BlockReason::CookieMismatchGuard => {
                self.metrics.ip_block_hits_cookie_mismatch_guard =
                self.metrics.ip_block_hits_cookie_mismatch_guard.saturating_add(1);
            },
        }
    }

    fn record_new_block(&mut self, reason: BlockReason)
        ensures
            *final(self) == (RateLimiter { metrics: metrics_after_new_block(old(self).metrics, reason), ..*old(self) }),
    {
        self.metrics.addresses_blocked = self.metrics.addresses_blocked.saturating_add(1);
        match reason {
            BlockReason::RateExceeded => {
                self.metrics.addresses_blocked_rate_exceeded =
                self.metrics.addresses_blocked_rate_exceeded.saturating_add(1);
            },
            BlockReason::Manual => {
                self.metrics.addresses_blocked_manual =
                self.metrics.addresses_blocked_manual.saturating_add(1);
            },
            BlockReason::HandshakeHeuristic => {
                self.metrics.addresses_blocked_handshake_heuristic =
                self.metrics.addresses_blocked_handshake_heuristic.saturating_add(1);
            },
            BlockReason::CookieMismatchGuard => {
                self.metrics.addresses_blocked_cookie_mismatch_guard =
                self.metrics.addresses_blocked_cookie_mismatch_guard.saturating_add(1);
            },
        }
    }

    fn reset_window_state(&mut self, now: Instant)
        requires
            keys_distinct(old(self).blocked@),
            keys_distinct(old(self).exceptions@),
            limits_valid(old(self)@),
            forall|ip: IpAddr| #[trigger] old(self)@.exceptions.contains(ip)
                ==> !old(self)@.blocked.contains_key(ip),
        ensures
            final(self).wf(),
            final(self)@ == window_reset(old(self)@, now),
            final(self).blocked@ == old(self).blocked@,
            final(self).exceptions@ == old(self).exceptions@,
    {
        self.window_start = now;
        self.window_count = 0;
        self.ip_state.clear();
        proof {
            assert(self@ =~= window_reset(old(self)@, now));
            self.lemma_finite();
        }
    }

    fn rotate_window_if_needed(&mut self, now: Instant)
        requires
            old(self).wf(),
        ensures
            final(self).wf(),
            final(self)@ == window_rotated(old(self)@, now),
            final(self).blocked@ == old(self).blocked@,
            final(self).exceptions@ == old(self).exceptions@,
    {
        if now.duration_since(self.window_start).nanos < self.window.nanos {
            return;
        }
        self.reset_window_state(now);
    }

    fn prune_expired_blocks(&mut self, now: Instant)
        requires
            old(self).wf(),
        ensures
            final(self).wf(),
            final(self)@ == (RateLimiterView {
                blocked: blocks_in_force(old(self)@.blocked, now),
                metrics: metrics_after_unblock(
                    old(self)@.metrics,
                    (old(self)@.blocked.dom().len() - blocks_in_force(
                        old(self)@.blocked,
                        now,
                    ).dom().len()) as nat,
                ),
                ..old(self)@
            }),
    {
        let ghost old_entries = self.blocked@;
        let ghost old_map = table_map(old_entries);
        let old_len = self.blocked.len();
        let mut unblocked: u64 = 0;
        let mut i: usize = 0;
        while i < self.blocked.len()
            invariant
                self.ip_state == old(self).ip_state,
                self.exceptions == old(self).exceptions,
                self.metrics == old(self).metrics,
                self.window_start == old(self).window_start,
                self.window_count == old(self).window_count,
                self.per_ip_limit == old(self).per_ip_limit,
                self.global_limit == old(self).global_limit,
                self.window == old(self).window,
                self.block_duration == old(self).block_duration,
                old_entries == old(self).blocked@,
                old_entries.len() == old_len,
                old_map == table_map(old_entries),
                i <= self.blocked@.len(),
                keys_distinct(self.blocked@),
                self.blocked@.len() <= old_entries.len(),
                unblocked + self.blocked@.len() == old_entries.len(),
                forall|j: int| 0 <= j < i ==> !block_expired(#[trigger] self.blocked@[j].1, now),
                forall|k: IpAddr| #[trigger] table_map(self.blocked@).contains_key(k)
                    ==> old_map.contains_key(k) && table_map(self.blocked@)[k] == old_map[k],
                forall|k: IpAddr|
                    old_map.contains_key(k) && !block_expired(old_map[k], now)
                        ==> #[trigger] table_map(self.blocked@).contains_key(k),
            decreases self.blocked@.len() - i,
        {
            let expired = match self.blocked[i].1.blocked_until {
                None => false,
                Some(until) => now.nanos >= until.nanos,
            };
            if expired {
                let ghost before = self.blocked@;
                proof {
                    lemma_table_remove(before, i as int);
                    lemma_table_value(before, i as int);
                }
                let _ = self.blocked.remove(i);
                unblocked = unblocked.saturating_add(1);
                assert forall|j: int| 0 <= j < i implies !block_expired(
                    #[trigger] self.blocked@[j].1,
                    now,
                ) by {
                    assert(self.blocked@[j] == before[j]);
                }
            } else {
                i = i + 1;
            }
        }
        self.metrics.addresses_unblocked = self.metrics.addresses_unblocked.saturating_add(unblocked);
        proof {
            lemma_table_len(self.blocked@);
            lemma_table_len(old_entries);
            let m = table_map(self.blocked@);
            assert forall|k: IpAddr| #[trigger] m.contains_key(k) implies !block_expired(
                old_map[k],
                now,
            ) by {
                lemma_table_position(self.blocked@, k);
            }
            assert(m =~= blocks_in_force(old_map, now));
            self.lemma_finite();
            assert(self@ =~= (RateLimiterView {
                blocked: blocks_in_force(old(self)@.blocked, now),
                metrics: metrics_after_unblock(
                    old(self)@.metrics,
                    (old(self)@.blocked.dom().len() - blocks_in_force(
                        old(self)@.blocked,
                        now,
                    ).dom().len()) as nat,
                ),
                ..old(self)@
            }));
        }
    }

    /// Advances the limiter to `now`: a window that ran out is replaced by a
    /// fresh one, and timed blocks that ran out are lifted.
    pub fn tick(&mut self, now: Instant)
        requires
            old(self).wf(),
        ensures
            final(self).wf(),
            final(self)@ == ticked(old(self)@, now),
    {
        self.rotate_window_if_needed(now);
        self.prune_expired_blocks(now);
    }

    /// Blocks `ip` until `until` (`None`: until lifted by hand) for `reason`,
    /// unless it is exempt; whether it was not blocked before.
    fn block_with(&mut self, ip: IpAddr, until: Option<Instant>, reason: BlockReason) -> (newly: bool)
        requires
            old(self).wf(),
        ensures
            final(self).wf(),
            (newly, final(self)@) == blocked_with(old(self)@, ip, until, reason),
    {
        if table_find(&self.exceptions, &ip).is_some() {
            return false;
        }
        let newly_blocked = table_find(&self.blocked, &ip).is_none();
        table_set(&mut self.blocked, ip, BlockState { blocked_until: until, reason });
        if newly_blocked {
            self.record_new_block(reason);
        }
        proof {
            self.lemma_finite();
            assert(self@ =~= blocked_with(old(self)@, ip, until, reason).1);
        }
        newly_blocked
    }

    /// Blocks `ip` by hand until it is unblocked, unless it is exempt; whether
    /// it was not blocked before.
    pub fn block_address(&mut self, ip: IpAddr) -> (newly: bool)
        requires
            old(self).wf(),
        ensures
            final(self).wf(),
            (newly, final(self)@) == blocked_with(old(self)@, ip, None, BlockReason::Manual),
    {
        self.block_address_with_reason(ip, BlockReason::Manual)
    }

    /// Blocks `ip` for `reason` until it is unblocked, unless it is exempt;
    /// whether it was not blocked before.
    pub fn block_address_with_reason(&mut self, ip: IpAddr, reason: BlockReason) -> (newly: bool)
        requires
            old(self).wf(),
        ensures
            final(self).wf(),
            (newly, final(self)@) == blocked_with(old(self)@, ip, None, reason),
    {
        self.block_with(ip, None, reason)
    }

    /// Blocks `ip` by hand for `duration` from `now` (a zero duration counts as
    /// one millisecond), unless it is exempt; whether it was not blocked before.
    pub fn block_address_for(&mut self, ip: IpAddr, now: Instant, duration: Duration) -> (newly: bool)
        requires
            old(self).wf(),
        ensures
            final(self).wf(),
            (newly, final(self)@) == blocked_with(
                old(self)@,
                ip,
                Some(instant_after(now, normalized_duration(duration, min_block_duration()))),
                BlockReason::Manual,
            ),
    {
        self.block_address_for_with_reason(ip, now, duration, BlockReason::Manual)
    }

    /// Blocks `ip` for `reason` for `duration` from `now` (a zero duration
    /// counts as one millisecond), unless it is exempt; whether it was not
    /// blocked before.
    pub fn block_address_for_with_reason(
        &mut self,
        ip: IpAddr,
        now: Instant,
        duration: Duration,
        reason: BlockReason,
    ) -> (newly: bool)
        requires
            old(self).wf(),
        ensures
            final(self).wf(),
            (newly, final(self)@) == blocked_with(
                old(self)@,
                ip,
                Some(instant_after(now, normalized_duration(duration, min_block_duration()))),
                reason,
            ),
    {
        let duration = normalize_duration(duration, Duration::from_nanos(MIN_BLOCK_DURATION_NANOS));
        let until = now.add_duration(duration);
        self.block_with(ip, Some(until), reason)
    }

    /// Lifts the block on `ip`; whether there was one.
    pub fn unblock_address(&mut self, ip: IpAddr) -> (was_blocked: bool)
        requires
            old(self).wf(),
        ensures
            final(self).wf(),
            was_blocked == old(self)@.blocked.contains_key(ip),
            final(self)@ == after_unblock(old(self)@, ip),
    {
        if table_take(&mut self.blocked, &ip).is_some() {
            self.metrics.addresses_unblocked = self.metrics.addresses_unblocked.saturating_add(1);
            proof {
                self.lemma_finite();
                assert(self@ =~= (RateLimiterView {
                    blocked: old(self)@.blocked.remove(ip),
                    metrics: metrics_after_unblock(old(self)@.metrics, 1),
                    ..old(self)@
                }));
            }
            return true;
        }
        proof {
            self.lemma_finite();
            assert(self@ =~= old(self)@);
        }
        false
    }

    /// Exempts `ip` from every limit, lifting its block if it has one.
    pub fn add_exception(&mut self, ip: IpAddr)
        requires
            old(self).wf(),
        ensures
            final(self).wf(),
            final(self)@ == after_add_exception(old(self)@, ip),
    {
        table_set(&mut self.exceptions, ip, ());
        if table_take(&mut self.blocked, &ip).is_some() {
            self.metrics.addresses_unblocked = self.metrics.addresses_unblocked.saturating_add(1);
        }
        proof {
            self.lemma_finite();
            assert(self@.exceptions =~= old(self)@.exceptions.insert(ip));
            assert(self@ =~= (RateLimiterView {
                exceptions: old(self)@.exceptions.insert(ip),
                blocked: old(self)@.blocked.remove(ip),
                metrics: if old(self)@.blocked.contains_key(ip) {
                    metrics_after_unblock(old(self)@.metrics, 1)
                } else {
                    old(self)@.metrics
                },
                ..old(self)@
            }));
        }
    }

    /// Ends the exemption of `ip`.
    pub fn remove_exception(&mut self, ip: IpAddr)
        requires
            old(self).wf(),
        ensures
            final(self).wf(),
            final(self)@ == (RateLimiterView {
                exceptions: old(self)@.exceptions.remove(ip),
                ..old(self)@
            }),
    {
        let _ = table_take(&mut self.exceptions, &ip);
        proof {
            self.lemma_finite();
            assert(self@.exceptions =~= old(self)@.exceptions.remove(ip));
            assert(self@ =~= (RateLimiterView {
                exceptions: old(self)@.exceptions.remove(ip),
                ..old(self)@
            }));
        }
    }

    /// Decides on one datagram from `ip` at `now`, after advancing the limiter
    /// to `now`. An exempt address is always let through and counted in the
    /// window. A blocked address is refused. Past the window's global budget
    /// the datagram is refused. An address that used up its own budget is
    /// blocked for the block duration and refused. Otherwise the datagram is
    /// let through and counted.
    pub fn check(&mut self, ip: IpAddr, now: Instant) -> (decision: RateLimitDecision)
        requires
            old(self).wf(),
            ticked(old(self)@, now).exceptions.contains(ip) ==> ticked(old(self)@, now).window_count
                < usize::MAX,
        ensures
            final(self).wf(),
            (decision, final(self)@) == checked(old(self)@, ip, now),
    {
        self.tick(now);
        let ghost t = self@;
        if table_find(&self.exceptions, &ip).is_some() {
            self.window_count = self.window_count + 1;
            proof {
                self.lemma_finite();
                assert(self@ =~= checked(old(self)@, ip, now).1);
            }
            return RateLimitDecision::Allow;
        }
        match table_find(&self.blocked, &ip) {
            Some(i) => {
                let reason = self.blocked[i].1.reason;
                self.record_ip_block_hit(reason);
                proof {
                    self.lemma_finite();
                    assert(self@ =~= checked(old(self)@, ip, now).1);
                }
                return RateLimitDecision::IpBlocked { newly_blocked: false, reason };
            },
            None => {},
        }
        if self.window_count >= self.global_limit {
            self.metrics.global_limit_hits = self.metrics.global_limit_hits.saturating_add(1);
            proof {
                self.lemma_finite();
                assert(self@ =~= checked(old(self)@, ip, now).1);
            }
            return RateLimitDecision::GlobalLimit;
        }
        let count = match table_find(&self.ip_state, &ip) {
            Some(i) => self.ip_state[i].1.count,
            None => 0,
        };
        if count >= self.per_ip_limit {
            let reason = BlockReason::RateExceeded;
            let newly_blocked = self.block_address_for_with_reason(
                ip,
                now,
                self.block_duration,
                reason,
            );
            self.record_ip_block_hit(reason);
            proof {
                self.lemma_finite();
                assert(self@ =~= checked(old(self)@, ip, now).1);
            }
            return RateLimitDecision::IpBlocked { newly_blocked, reason };
        }
        table_set(&mut self.ip_state, ip, IpWindowState { count: count + 1 });
        self.window_count = self.window_count + 1;
        proof {
            self.lemma_finite();
            assert(self@ =~= checked(old(self)@, ip, now).1);
        }
        RateLimitDecision::Allow
    }

    /// Sets the per-address budget (at least one) and starts a fresh window
    /// now: the clock is read, and the rest is `set_per_ip_limit_at` (what the
    /// clock reads is not stated).
    pub fn set_per_ip_limit(&mut self, per_ip_limit: usize)
        requires
            old(self).wf(),
        ensures
            final(self).wf(),
            final(self)@ == window_reset(
                RateLimiterView { per_ip_limit: at_least_one(per_ip_limit), ..old(self)@ },
                final(self)@.window_start,
            ),
    {
        self.set_per_ip_limit_at(per_ip_limit, Instant::now());
    }

    /// Sets the per-address budget (at least one) and starts a fresh window at `now`.
    pub fn set_per_ip_limit_at(&mut self, per_ip_limit: usize, now: Instant)
        requires
            old(self).wf(),
        ensures
            final(self).wf(),
            final(self)@ == window_reset(
                RateLimiterView { per_ip_limit: at_least_one(per_ip_limit), ..old(self)@ },
                now,
            ),
    {
        self.per_ip_limit = if per_ip_limit == 0 {
            1
        } else {
            per_ip_limit
        };
        self.reset_window_state(now);
    }

    /// Sets the global budget (at least one) and starts a fresh window now:
    /// the clock is read, and the rest is `set_global_limit_at` (what the
    /// clock reads is not stated).
    pub fn set_global_limit(&mut self, global_limit: usize)
        requires
            old(self).wf(),
        ensures
            final(self).wf(),
            final(self)@ == window_reset(
                RateLimiterView { global_limit: at_least_one(global_limit), ..old(self)@ },
                final(self)@.window_start,
            ),
    {
        self.set_global_limit_at(global_limit, Instant::now());
    }

    /// Sets the global budget (at least one) and starts a fresh window at `now`.
    pub fn set_global_limit_at(&mut self, global_limit: usize, now: Instant)
        requires
            old(self).wf(),
        ensures
            final(self).wf(),
            final(self)@ == window_reset(
                RateLimiterView { global_limit: at_least_one(global_limit), ..old(self)@ },
                now,
            ),
    {
        self.global_limit = if global_limit == 0 {
            1
        } else {
            global_limit
        };
        self.reset_window_state(now);
    }

    /// Sets the window length (a zero one counts as one millisecond) and
    /// starts a fresh window now: the clock is read, and the rest is
    /// `set_window_at` (what the clock reads is not stated).
    pub fn set_window(&mut self, window: Duration)
        requires
            old(self).wf(),
        ensures
            final(self).wf(),
            final(self)@ == window_reset(
                RateLimiterView {
                    window: normalized_duration(window, min_rate_window()),
                    ..old(self)@
                },
                final(self)@.window_start,
            ),
    {
        self.set_window_at(window, Instant::now());
    }

    /// Sets the window length (a zero one counts as one millisecond) and
    /// starts a fresh window at `now`.
    pub fn set_window_at(&mut self, window: Duration, now: Instant)
        requires
            old(self).wf(),
        ensures
            final(self).wf(),
            final(self)@ == window_reset(
                RateLimiterView {
                    window: normalized_duration(window, min_rate_window()),
                    ..old(self)@
                },
                now,
            ),
    {
        self.window = normalize_duration(window, Duration::from_nanos(MIN_RATE_WINDOW_NANOS));
        self.reset_window_state(now);
    }

    /// Sets how long the limiter blocks an address that used up its budget (a
    /// zero duration counts as one millisecond).
    pub fn set_block_duration(&mut self, block_duration: Duration)
        requires
            old(self).wf(),
        ensures
            final(self).wf(),
            final(self)@ == (RateLimiterView {
                block_duration: normalized_duration(block_duration, min_block_duration()),
                ..old(self)@
            }),
    {
        self.block_duration = normalize_duration(
            block_duration,
            Duration::from_nanos(MIN_BLOCK_DURATION_NANOS),
        );
        proof {
            self.lemma_finite();
        }
    }

    /// Sets every limit at once (raised to their minimums) and starts a fresh
    /// window now: the clock is read, and the rest is `update_limits_at` (what
    /// the clock reads is not stated).
    pub fn update_limits(
        &mut self,
        per_ip_limit: usize,
        global_limit: usize,
        window: Duration,
        block_duration: Duration,
    )
        requires
            old(self).wf(),
        ensures
            final(self).wf(),
            final(self)@ == window_reset(
                RateLimiterView {
                    per_ip_limit: at_least_one(per_ip_limit),
                    global_limit: at_least_one(global_limit),
                    window: normalized_duration(window, min_rate_window()),
                    block_duration: normalized_duration(block_duration, min_block_duration()),
                    ..old(self)@
                },
                final(self)@.window_start,
            ),
    {
        self.update_limits_at(per_ip_limit, global_limit, window, block_duration, Instant::now());
    }

    /// Sets every limit at once (raised to their minimums) and starts a fresh
    /// window at `now`.
    pub fn update_limits_at(
        &mut self,
        per_ip_limit: usize,
        global_limit: usize,
        window: Duration,
        block_duration: Duration,
        now: Instant,
    )
        requires
            old(self).wf(),
        ensures
            final(self).wf(),
            final(self)@ == window_reset(
                RateLimiterView {
                    per_ip_limit: at_least_one(per_ip_limit),
                    global_limit: at_least_one(global_limit),
                    window: normalized_duration(window, min_rate_window()),
                    block_duration: normalized_duration(block_duration, min_block_duration()),
                    ..old(self)@
                },
                now,
            ),
    {
        let (per_ip_limit, global_limit, window, block_duration) = normalize_limits(
            per_ip_limit,
            global_limit,
            window,
            block_duration,
        );
        self.per_ip_limit = per_ip_limit;
        self.global_limit = global_limit;
        self.window = window;
        self.block_duration = block_duration;
        self.reset_window_state(now);
    }

    /// The limits in force.
    pub fn config_snapshot(&self) -> (c: RateLimiterConfigSnapshot)
        ensures
            c == (RateLimiterConfigSnapshot {
                per_ip_limit: self@.per_ip_limit,
                global_limit: self@.global_limit,
                window: self@.window,
                block_duration: self@.block_duration,
            }),
    {
        RateLimiterConfigSnapshot {
            per_ip_limit: self.per_ip_limit,
            global_limit: self.global_limit,
            window: self.window,
            block_duration: self.block_duration,
        }
    }

    /// The counters, with how many addresses are blocked and how many are exempt.
    pub fn metrics_snapshot(&self) -> (m: RateLimiterMetricsSnapshot)
        requires
            self.wf(),
        ensures
            m == metrics_snapshot_of(self@.metrics, self@.blocked.dom().len(), self@.exceptions.len()),
    {
        proof {
            self.lemma_finite();
        }
        RateLimiterMetricsSnapshot {
            global_limit_hits: self.metrics.global_limit_hits,
            ip_block_hits: self.metrics.ip_block_hits,
            ip_block_hits_rate_exceeded: self.metrics.ip_block_hits_rate_exceeded,
            ip_block_hits_manual: self.metrics.ip_block_hits_manual,
            ip_block_hits_handshake_heuristic: self.metrics.ip_block_hits_handshake_heuristic,
            ip_block_hits_cookie_mismatch_guard: self.metrics.ip_block_hits_cookie_mismatch_guard,
            addresses_blocked: self.metrics.addresses_blocked,
            addresses_blocked_rate_exceeded: self.metrics.addresses_blocked_rate_exceeded,
            addresses_blocked_manual: self.metrics.addresses_blocked_manual,
            addresses_blocked_handshake_heuristic: self.metrics.addresses_blocked_handshake_heuristic,
            addresses_blocked_cookie_mismatch_guard: self.metrics.addresses_blocked_cookie_mismatch_guard,
            addresses_unblocked: self.metrics.addresses_unblocked,
            blocked_addresses: self.blocked.len(),
            exception_addresses: self.exceptions.len(),
        }
    }

    /// Every limiter keeps its invariant: limits at least their minimums, no
    /// exempt address blocked, and no address counted past the per-address
    /// budget in the current window.
    pub proof fn lemma_wf(&self)
        requires
            self.wf(),
        ensures
            view_wf(self@),
    {
    }
}

/// Each counter of `b` is at least the same counter of `a`.
pub open spec fn metrics_le(a: RateLimiterMetrics, b: RateLimiterMetrics) -> bool {
    &&& a.global_limit_hits <= b.global_limit_hits
    &&& a.ip_block_hits <= b.ip_block_hits
    &&& a.ip_block_hits_rate_exceeded <= b.ip_block_hits_rate_exceeded
    &&& a.ip_block_hits_manual <= b.ip_block_hits_manual
    &&& a.ip_block_hits_handshake_heuristic <= b.ip_block_hits_handshake_heuristic
    &&& a.ip_block_hits_cookie_mismatch_guard <= b.ip_block_hits_cookie_mismatch_guard
    &&& a.addresses_blocked <= b.addresses_blocked
    &&& a.addresses_blocked_rate_exceeded <= b.addresses_blocked_rate_exceeded
    &&& a.addresses_blocked_manual <= b.addresses_blocked_manual
    &&& a.addresses_blocked_handshake_heuristic <= b.addresses_blocked_handshake_heuristic
    &&& a.addresses_blocked_cookie_mismatch_guard <= b.addresses_blocked_cookie_mismatch_guard
    &&& a.addresses_unblocked <= b.addresses_unblocked
}

/// An exempt address is always let through, whatever its history.
pub proof fn lemma_exception_always_allowed(v: RateLimiterView, ip: IpAddr, now: Instant)
    requires
        v.exceptions.contains(ip),
    ensures
        checked(v, ip, now).0 == RateLimitDecision::Allow,
{
}

/// A block without an end survives every advance of time, and every datagram
/// from that address is refused with the block's reason, until the block is
/// lifted by hand.
pub proof fn lemma_permanent_block_persists(v: RateLimiterView, ip: IpAddr, now: Instant)
    requires
        view_wf(v),
        v.blocked.contains_key(ip),
        v.blocked[ip].blocked_until is None,
    ensures
        ticked(v, now).blocked.contains_key(ip),
        ticked(v, now).blocked[ip] == v.blocked[ip],
        checked(v, ip, now).0 == (RateLimitDecision::IpBlocked {
            newly_blocked: false,
            reason: v.blocked[ip].reason,
        }),
        checked(v, ip, now).1.blocked.contains_key(ip),
{
}

/// A timed block is lifted once its end has come.
pub proof fn lemma_timed_block_expires(v: RateLimiterView, ip: IpAddr, now: Instant)
    requires
        v.blocked.contains_key(ip),
        v.blocked[ip].blocked_until matches Some(until) && now.nanos >= until.nanos,
    ensures
        !ticked(v, now).blocked.contains_key(ip),
{
}

/// Once the window has run out, the next datagram starts from a fresh window:
/// nothing counted globally or for any address.
pub proof fn lemma_window_rotation_resets_counts(v: RateLimiterView, now: Instant)
    requires
        elapsed_between(v.window_start, now).nanos >= v.window.nanos,
    ensures
        ticked(v, now).window_count == 0,
        ticked(v, now).ip_state == Map::<IpAddr, IpWindowState>::empty(),
        ticked(v, now).window_start == now,
{
}

/// An address that is neither exempt nor blocked is let through at most
/// `per_ip_limit` times in one window: a datagram let through leaves it
/// counted at most that many times, and one that finds it at the budget gets
/// it blocked.
pub proof fn lemma_per_ip_budget(v: RateLimiterView, ip: IpAddr, now: Instant)
    requires
        view_wf(v),
    ensures
        ({
            let (d, w) = checked(v, ip, now);
            let t = ticked(v, now);
            &&& d == RateLimitDecision::Allow && !t.exceptions.contains(ip) ==> w.ip_state.contains_key(ip)
                && w.ip_state[ip].count <= w.per_ip_limit
            &&& !t.exceptions.contains(ip) && !t.blocked.contains_key(ip) && t.window_count
                < t.global_limit && t.ip_state.contains_key(ip) && t.ip_state[ip].count
                >= t.per_ip_limit ==> d == (RateLimitDecision::IpBlocked {
                newly_blocked: true,
                reason: BlockReason::RateExceeded,
            }) && w.blocked.contains_key(ip)
        }),
{
}

/// No counter ever goes down: advancing time and deciding on a datagram only
/// add to them.
pub proof fn lemma_metrics_monotone(v: RateLimiterView, ip: IpAddr, now: Instant)
    ensures
        metrics_le(v.metrics, ticked(v, now).metrics),
        metrics_le(v.metrics, checked(v, ip, now).1.metrics),
{
}

/// The decisions on a run of datagrams, each from an address at an instant,
/// and the state after them.
pub open spec fn checked_run(v: RateLimiterView, reqs: Seq<(IpAddr, Instant)>) -> (
    Seq<RateLimitDecision>,
    RateLimiterView,
)
    decreases reqs.len(),
{
    if reqs.len() == 0 {
        (Seq::empty(), v)
    } else {
        let (ds, w) = checked_run(v, reqs.drop_last());
        let (d, w2) = checked(w, reqs.last().0, reqs.last().1);
        (ds.push(d), w2)
    }
}

/// How many of the first `k` datagrams of a run were let through from
/// addresses that are not in `exempt`.
pub open spec fn allowed_count(
    ds: Seq<RateLimitDecision>,
    reqs: Seq<(IpAddr, Instant)>,
    exempt: Set<IpAddr>,
    k: int,
) -> nat
    decreases k,
{
    if k <= 0 {
        0
    } else {
        allowed_count(ds, reqs, exempt, k - 1) + if ds[k - 1] == RateLimitDecision::Allow
            && !exempt.contains(reqs[k - 1].0) {
            1nat
        } else {
            0nat
        }
    }
}

/// How many of the first `k` datagrams of a run came from `ip` and were let through.
pub open spec fn allowed_from(
    ds: Seq<RateLimitDecision>,
    reqs: Seq<(IpAddr, Instant)>,
    ip: IpAddr,
    k: int,
) -> nat
    decreases k,
{
    if k <= 0 {
        0
    } else {
        allowed_from(ds, reqs, ip, k - 1) + if ds[k - 1] == RateLimitDecision::Allow && reqs[k
            - 1].0 == ip {
            1nat
        } else {
            0nat
        }
    }
}

/// The count of `ip` in a state's window (zero when not counted).
pub open spec fn count_of(v: RateLimiterView, ip: IpAddr) -> nat {
    if v.ip_state.contains_key(ip) {
        v.ip_state[ip].count as nat
    } else {
        0
    }
}

proof fn lemma_checked_run_in_window(v: RateLimiterView, reqs: Seq<(IpAddr, Instant)>, ip: IpAddr)
    requires
        limits_valid(v),
        v.ip_state.contains_key(ip) ==> v.ip_state[ip].count <= v.per_ip_limit,
        forall|i: int|
            0 <= i < reqs.len() ==> elapsed_between(v.window_start, (#[trigger] reqs[i]).1).nanos
                < v.window.nanos,
        v.window_count + reqs.len() < usize::MAX,
    ensures
        ({
            let (ds, w) = checked_run(v, reqs);
            &&& ds.len() == reqs.len()
            &&& w.window_start == v.window_start && w.window == v.window
            &&& w.per_ip_limit == v.per_ip_limit && w.global_limit == v.global_limit
            &&& w.block_duration == v.block_duration
            &&& w.exceptions == v.exceptions
            &&& v.window_count <= w.window_count <= v.window_count + reqs.len()
            &&& allowed_count(ds, reqs, v.exceptions, reqs.len() as int) <= w.window_count
            &&& allowed_count(ds, reqs, v.exceptions, reqs.len() as int) <= v.global_limit
            &&& !v.exceptions.contains(ip) ==> allowed_from(ds, reqs, ip, reqs.len() as int)
                + count_of(v, ip) <= count_of(w, ip)
            &&& w.ip_state.contains_key(ip) ==> w.ip_state[ip].count <= v.per_ip_limit
        }),
    decreases reqs.len(),
{
    if reqs.len() > 0 {
        let pre = reqs.drop_last();
        assert forall|i: int| 0 <= i < pre.len() implies elapsed_between(
            v.window_start,
            (#[trigger] pre[i]).1,
        ).nanos < v.window.nanos by {
            assert(pre[i] == reqs[i]);
        }
        lemma_checked_run_in_window(v, pre, ip);
        let (ds0, w) = checked_run(v, pre);
        let last = reqs.last();
        assert(last == reqs[reqs.len() - 1]);
        let (ds, w2) = checked_run(v, reqs);
        assert(ds == ds0.push(checked(w, last.0, last.1).0));
        assert forall|k: int| 0 <= k <= pre.len() implies #[trigger] allowed_count(
            ds,
            reqs,
            v.exceptions,
            k,
        ) == allowed_count(ds0, pre, v.exceptions, k) by {
            lemma_allowed_count_prefix(ds, reqs, ds0, pre, v.exceptions, k);
        }
        assert forall|k: int| 0 <= k <= pre.len() implies #[trigger] allowed_from(ds, reqs, ip, k)
            == allowed_from(ds0, pre, ip, k) by {
            lemma_allowed_from_prefix(ds, reqs, ds0, pre, ip, k);
        }
        assert(allowed_count(ds, reqs, v.exceptions, pre.len() as int) == allowed_count(
            ds0,
            pre,
            v.exceptions,
            pre.len() as int,
        ));
        assert(allowed_from(ds, reqs, ip, pre.len() as int) == allowed_from(
            ds0,
            pre,
            ip,
            pre.len() as int,
        ));
    }
}

proof fn lemma_allowed_count_prefix(
    ds: Seq<RateLimitDecision>,
    reqs: Seq<(IpAddr, Instant)>,
    ds0: Seq<RateLimitDecision>,
    pre: Seq<(IpAddr, Instant)>,
    exempt: Set<IpAddr>,
    k: int,
)
    requires
        0 <= k <= pre.len(),
        k <= ds0.len(),
        pre.len() <= reqs.len(),
        ds0.len() <= ds.len(),
        forall|i: int| 0 <= i < pre.len() ==> pre[i] == reqs[i],
        forall|i: int| 0 <= i < ds0.len() ==> ds0[i] == ds[i],
    ensures
        allowed_count(ds, reqs, exempt, k) == allowed_count(ds0, pre, exempt, k),
    decreases k,
{
    if k > 0 {
        lemma_allowed_count_prefix(ds, reqs, ds0, pre, exempt, k - 1);
    }
}

proof fn lemma_allowed_from_prefix(
    ds: Seq<RateLimitDecision>,
    reqs: Seq<(IpAddr, Instant)>,
    ds0: Seq<RateLimitDecision>,
    pre: Seq<(IpAddr, Instant)>,
    ip: IpAddr,
    k: int,
)
    requires
        0 <= k <= pre.len(),
        k <= ds0.len(),
        pre.len() <= reqs.len(),
        ds0.len() <= ds.len(),
        forall|i: int| 0 <= i < pre.len() ==> pre[i] == reqs[i],
        forall|i: int| 0 <= i < ds0.len() ==> ds0[i] == ds[i],
    ensures
        allowed_from(ds, reqs, ip, k) == allowed_from(ds0, pre, ip, k),
    decreases k,
{
    if k > 0 {
        lemma_allowed_from_prefix(ds, reqs, ds0, pre, ip, k - 1);
    }
}

/// Within one window, whatever run of datagrams arrives: at most
/// `global_limit` of them from addresses that are not exempt are let
/// through, and at most `per_ip_limit` from any one such address (fewer when
/// it was already counted in the window). (The window counter must not reach
/// `usize::MAX` on the way, where `check` requires as much.)
pub proof fn lemma_window_budgets(v: RateLimiterView, reqs: Seq<(IpAddr, Instant)>, ip: IpAddr)
    requires
        view_wf(v),
        forall|i: int|
            0 <= i < reqs.len() ==> elapsed_between(v.window_start, (#[trigger] reqs[i]).1).nanos
                < v.window.nanos,
        v.window_count + reqs.len() < usize::MAX,
    ensures
        ({
            let (ds, w) = checked_run(v, reqs);
            &&& allowed_count(ds, reqs, v.exceptions, reqs.len() as int) <= v.global_limit
            &&& !v.exceptions.contains(ip) ==> allowed_from(ds, reqs, ip, reqs.len() as int)
                + count_of(v, ip) <= v.per_ip_limit
        }),
{
    lemma_checked_run_in_window(v, reqs, ip);
}

/// The counters agree with each other and with the blocks: the block hits
/// and the new blocks are the sums of their per-reason counts, and every
/// address ever blocked is either still blocked or counted as unblocked.
pub open spec fn metric_totals_hold(v: RateLimiterView) -> bool {
    let m = v.metrics;
    &&& m.ip_block_hits == m.ip_block_hits_rate_exceeded + m.ip_block_hits_manual
        + m.ip_block_hits_handshake_heuristic + m.ip_block_hits_cookie_mismatch_guard
    &&& m.addresses_blocked == m.addresses_blocked_rate_exceeded + m.addresses_blocked_manual
        + m.addresses_blocked_handshake_heuristic + m.addresses_blocked_cookie_mismatch_guard
    &&& m.addresses_unblocked + v.blocked.dom().len() == m.addresses_blocked
}

/// The two totals have not reached `u64::MAX`, where the counters saturate.
pub open spec fn totals_unsaturated(v: RateLimiterView) -> bool {
    v.metrics.ip_block_hits < u64::MAX && v.metrics.addresses_blocked < u64::MAX
}

proof fn lemma_totals_ticked(v: RateLimiterView, now: Instant)
    requires
        v.blocked.dom().finite(),
        metric_totals_hold(v),
        totals_unsaturated(v),
    ensures
        metric_totals_hold(ticked(v, now)),
        totals_unsaturated(ticked(v, now)),
        ticked(v, now).blocked.dom().finite(),
{
    let r = window_rotated(v, now);
    let kept = blocks_in_force(r.blocked, now);
    assert(kept.dom().subset_of(v.blocked.dom()));
    vstd::set_lib::lemma_len_subset(kept.dom(), v.blocked.dom());
}

proof fn lemma_totals_blocked_with(v: RateLimiterView, ip: IpAddr, until: Option<Instant>, reason: BlockReason)
    requires
        v.blocked.dom().finite(),
        metric_totals_hold(v),
        totals_unsaturated(v),
    ensures
        metric_totals_hold(blocked_with(v, ip, until, reason).1),
        blocked_with(v, ip, until, reason).1.metrics.ip_block_hits == v.metrics.ip_block_hits,
        blocked_with(v, ip, until, reason).1.blocked.dom().finite(),
{
    if !v.exceptions.contains(ip) {
        vstd::set::axiom_set_insert_len(v.blocked.dom(), ip);
        assert(v.blocked.insert(ip, BlockState { blocked_until: until, reason }).dom() =~= v.blocked.dom().insert(ip));
    }
}

/// While the totals have not saturated, deciding on a datagram keeps the
/// counters in agreement: totals equal the sums of their per-reason counts,
/// and new blocks equal the blocks in force plus the blocks lifted.
pub proof fn lemma_check_keeps_totals(v: RateLimiterView, ip: IpAddr, now: Instant)
    requires
        view_wf(v),
        metric_totals_hold(v),
        totals_unsaturated(v),
    ensures
        metric_totals_hold(checked(v, ip, now).1),
{
    lemma_totals_ticked(v, now);
    let t = ticked(v, now);
    if !t.exceptions.contains(ip) && !t.blocked.contains_key(ip) && t.window_count < t.global_limit {
        let until = instant_after(now, normalized_duration(t.block_duration, min_block_duration()));
        lemma_totals_blocked_with(t, ip, Some(until), BlockReason::RateExceeded);
    }
}

/// Blocking by hand keeps the counters in agreement while the totals have
/// not saturated.
pub proof fn lemma_block_keeps_totals(
    v: RateLimiterView,
    ip: IpAddr,
    until: Option<Instant>,
    reason: BlockReason,
)
    requires
        view_wf(v),
        metric_totals_hold(v),
        totals_unsaturated(v),
    ensures
        metric_totals_hold(blocked_with(v, ip, until, reason).1),
{
    lemma_totals_blocked_with(v, ip, until, reason);
}

/// Lifting a block, by hand or by an exemption, and time passing keep the
/// counters in agreement while the totals have not saturated; a new limiter
/// starts with them in agreement.
pub proof fn lemma_unblock_keeps_totals(v: RateLimiterView, ip: IpAddr, now: Instant)
    requires
        view_wf(v),
        metric_totals_hold(v),
        totals_unsaturated(v),
    ensures
        metric_totals_hold(after_unblock(v, ip)),
        metric_totals_hold(after_add_exception(v, ip)),
        metric_totals_hold(ticked(v, now)),
        metric_totals_hold(
            RateLimiterView { metrics: zero_metrics(), blocked: Map::<IpAddr, BlockState>::empty(), ..v },
        ),
{
    lemma_totals_ticked(v, now);
    if v.blocked.contains_key(ip) {
        vstd::set::axiom_set_remove_len(v.blocked.dom(), ip);
        assert(v.blocked.remove(ip).dom() =~= v.blocked.dom().remove(ip));
    }
    assert(Map::<IpAddr, BlockState>::empty().dom() =~= Set::<IpAddr>::empty());
}

/// When a datagram uses up its address's budget, the address is blocked
/// for the limiter's block duration from that instant, for exceeding the
/// rate (the end saturates at the largest instant).
pub proof fn lemma_rate_block_lasts_block_duration(v: RateLimiterView, ip: IpAddr, now: Instant)
    requires
        view_wf(v),
    ensures
        checked(v, ip, now).0 == (RateLimitDecision::IpBlocked {
            newly_blocked: true,
            reason: BlockReason::RateExceeded,
        }) ==> checked(v, ip, now).1.blocked.contains_key(ip) && checked(v, ip, now).1.blocked[ip]
            == (BlockState {
            blocked_until: Some(instant_after(now, v.block_duration)),
            reason: BlockReason::RateExceeded,
        }),
{
}

/// A block holds until its end: before that instant (always, for a block
/// without an end) every datagram from the address is refused with the
/// block's reason, and the block stays as it was.
pub proof fn lemma_block_holds_until_its_end(v: RateLimiterView, ip: IpAddr, now: Instant)
    requires
        view_wf(v),
        v.blocked.contains_key(ip),
        v.blocked[ip].blocked_until matches Some(until) ==> now.nanos < until.nanos,
    ensures
        checked(v, ip, now).0 == (RateLimitDecision::IpBlocked {
            newly_blocked: false,
            reason: v.blocked[ip].reason,
        }),
        checked(v, ip, now).1.blocked.contains_key(ip),
        checked(v, ip, now).1.blocked[ip] == v.blocked[ip],
{
    assert(!ticked(v, now).exceptions.contains(ip));
    assert(ticked(v, now).blocked.contains_key(ip));
}

/// Once a datagram has used up its address's budget, every later datagram
/// from that address within the block duration is refused as rate exceeded,
/// whatever the window does meanwhile.
pub proof fn lemma_rate_block_refuses_within_block_duration(
    v: RateLimiterView,
    ip: IpAddr,
    now: Instant,
    later: Instant,
)
    requires
        view_wf(v),
        checked(v, ip, now).0 == (RateLimitDecision::IpBlocked {
            newly_blocked: true,
            reason: BlockReason::RateExceeded,
        }),
        later.nanos < now.nanos + v.block_duration.nanos,
        now.nanos + v.block_duration.nanos <= u128::MAX,
    ensures
        checked(checked(v, ip, now).1, ip, later).0 == (RateLimitDecision::IpBlocked {
            newly_blocked: false,
            reason: BlockReason::RateExceeded,
        }),
{
    lemma_rate_block_lasts_block_duration(v, ip, now);
    let w = checked(v, ip, now).1;
    assert(!w.exceptions.contains(ip));
    let t = ticked(w, later);
    assert(t.blocked.contains_key(ip));
    assert(!t.exceptions.contains(ip));
}

} // verus!
