//! The configurations a server's transport runtime is started with.
use vstd::prelude::*;

use crate::error::ConfigValidationError;
use crate::net::SocketAddr;

verus! {

/// The default port of a Bedrock server.
pub const DEFAULT_BIND_PORT: u16 = 19132;

/// Where the transport listens, and what it advertises in unconnected pongs.
#[derive(Debug, Clone)]
pub struct TransportConfig {
    pub bind_addr: SocketAddr,
    pub advertisement: String,
}

impl Default for TransportConfig {
    /// Listens on every IPv4 interface on the default port; advertises nothing.
    fn default() -> (c: TransportConfig)
        ensures
            c.bind_addr == (SocketAddr::V4 { ip: 0, port: DEFAULT_BIND_PORT }),
            c.advertisement@ == Seq::<char>::empty(),
    {
        TransportConfig { bind_addr: SocketAddr::V4 { ip: 0, port: DEFAULT_BIND_PORT }, advertisement: String::new() }
    }
}

/// How many transport shards (worker tasks) the runtime runs.
#[derive(Debug, Clone, Copy, PartialEq, Eq, Structural)]
pub struct ShardedRuntimeConfig {
    pub shard_count: usize,
}

impl Default for ShardedRuntimeConfig {
    /// One shard.
    fn default() -> (c: ShardedRuntimeConfig)
        ensures
            c.shard_count == 1,
    {
        ShardedRuntimeConfig { shard_count: 1 }
    }
}

impl ShardedRuntimeConfig {
    /// At least one shard is required.
    pub fn validate(&self) -> (r: Result<(), ConfigValidationError>)
        ensures
            r is Ok <==> self.shard_count >= 1,
            r matches Err(e) ==> e.config == "ShardedRuntimeConfig" && e.field == "shard_count"
                && e.message == "must be >= 1",
    {
        if self.shard_count == 0 {
            return Err(ConfigValidationError::new("ShardedRuntimeConfig", "shard_count", "must be >= 1"));
        }
        Ok(())
    }
}

} // verus!
