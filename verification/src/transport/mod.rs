//! What the sharded transport runtime reports to the server, the
//! configurations it starts from, and the per-address rate limiter.
pub mod config;
pub mod events;
pub mod rate_limiter;
