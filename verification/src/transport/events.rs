//! Events that the sharded transport runtime hands to the server.
use vstd::prelude::*;

use crate::handshake::OfflinePacket;
use crate::net::SocketAddr;
use crate::protocol::reliability::Reliability;
use crate::protocol::sequence24::Sequence24;

verus! {

/// Why a remote peer went away.
#[derive(Debug, Clone, Copy, PartialEq, Eq, Structural)]
pub enum RemoteDisconnectReason {
    /// The peer sent a disconnection notification (with its reason code, if any).
    DisconnectionNotification { reason_code: Option<u8> },
    /// The peer stopped answering.
    DetectLostConnection,
}

/// One reassembled, in-order frame delivered to the application.
#[derive(Debug, Clone)]
pub struct ConnectedFrameDelivery {
    pub payload: bytes::Bytes,
    pub reliability: Reliability,
    pub reliable_index: Option<Sequence24>,
    pub sequence_index: Option<Sequence24>,
    pub ordering_index: Option<Sequence24>,
    pub ordering_channel: Option<u8>,
}

/// What one transport shard observed.
#[derive(Debug, Clone)]
pub enum TransportEvent {
    PeerDisconnected { addr: SocketAddr, reason: RemoteDisconnectReason },
    /// Frames delivered from a connected peer, with the receipts it acknowledged.
    ConnectedFrames {
        addr: SocketAddr,
        frames: Vec<ConnectedFrameDelivery>,
        acked_receipt_ids: Vec<u64>,
    },
    RateLimited { addr: SocketAddr },
    SessionLimitReached { addr: SocketAddr },
    ConnectedDatagramDroppedNoSession { addr: SocketAddr },
    ProxyDropped { addr: SocketAddr },
    /// A datagram that failed to decode, with the error rendered as text.
    DecodeError { addr: SocketAddr, error: String },
    OfflinePacket { addr: SocketAddr, packet: OfflinePacket },
}

/// What the sharded runtime reports: a shard's transport event, a shard's
/// metrics (of type `M`), or a shard's failure or stop.
#[derive(Debug)]
pub enum ShardedRuntimeEvent<M> {
    Transport { shard_id: usize, event: TransportEvent },
    Metrics { shard_id: usize, snapshot: Box<M>, dropped_non_critical_events: u64 },
    WorkerError { shard_id: usize, message: String },
    WorkerStopped { shard_id: usize },
}

} // verus!
