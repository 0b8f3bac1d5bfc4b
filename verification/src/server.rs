//! The server's view of its peers: peer ids, send options, the builder of its
//! configuration, the events it reports, and the registry that binds each
//! connected address to a peer id and a transport shard.
use std::collections::VecDeque;

use vstd::prelude::*;

use crate::handshake::OfflinePacket;
use crate::net::SocketAddr;
use crate::protocol::reliability::Reliability;
use crate::protocol::sequence24::Sequence24;
use crate::session::RakPriority;
use crate::table::{keys_distinct, table_find, table_map, table_set, table_take, TableKey};
use crate::transport::config::{ShardedRuntimeConfig, TransportConfig};
use crate::transport::events::{
    ConnectedFrameDelivery, RemoteDisconnectReason, ShardedRuntimeEvent, TransportEvent,
};

verus! {

/// The server's id for a connected peer.
#[derive(Debug, Clone, Copy, PartialEq, Eq, Hash, Structural)]
pub struct PeerId(u64);

impl View for PeerId {
    type V = u64;

    closed spec fn view(&self) -> u64 {
        self.0
    }
}

impl PeerId {
    pub fn from_u64(value: u64) -> (p: PeerId)
        ensures
            p@ == value,
            p == peer_id_of(value),
    {
        PeerId(value)
    }

    pub fn as_u64(self) -> (v: u64)
        ensures
            v == self@,
    {
        self.0
    }

    /// Two peer ids are the same exactly when their numbers are.
    pub proof fn lemma_view_injective(a: PeerId, b: PeerId)
        ensures
            a@ == b@ <==> a == b,
    {
    }
}

/// The peer id numbered `n`.
pub closed spec fn peer_id_of(n: u64) -> PeerId {
    PeerId(n)
}

/// The peer id numbered `n` has the number `n`.
pub proof fn lemma_peer_id_of(n: u64)
    ensures
        peer_id_of(n)@ == n,
{
}

impl TableKey for PeerId {
    fn key_eq(&self, other: &Self) -> (r: bool) {
        self.0 == other.0
    }
}

/// How a payload is sent: its reliability, its ordering channel and its priority.
#[derive(Debug, Clone, Copy, PartialEq, Eq, Structural)]
pub struct SendOptions {
    pub reliability: Reliability,
    pub channel: u8,
    pub priority: RakPriority,
}

impl Default for SendOptions {
    /// Reliable and ordered, on channel 0, at high priority.
    fn default() -> (o: SendOptions)
        ensures
            o == (SendOptions {
                reliability: Reliability::ReliableOrdered,
                channel: 0,
                priority: RakPriority::High,
            }),
    {
        SendOptions { reliability: Reliability::ReliableOrdered, channel: 0, priority: RakPriority::High }
    }
}

/// Why a peer's connection ended.
#[derive(Debug, Clone, Copy, PartialEq, Eq, Structural)]
pub enum PeerDisconnectReason {
    /// The server asked for it.
    Requested,
    /// The peer sent a disconnection notification.
    RemoteDisconnectionNotification { reason_code: Option<u8> },
    /// The peer stopped answering.
    RemoteDetectLostConnection,
    /// The transport shard that served the peer stopped.
    WorkerStopped { shard_id: usize },
}

/// The disconnect reason a remote disconnect is reported with.
pub open spec fn peer_reason_of_remote(reason: RemoteDisconnectReason) -> PeerDisconnectReason {
    match reason {
        RemoteDisconnectReason::DisconnectionNotification { reason_code } => {
            PeerDisconnectReason::RemoteDisconnectionNotification { reason_code }
        },
        RemoteDisconnectReason::DetectLostConnection => {
            PeerDisconnectReason::RemoteDetectLostConnection
        },
    }
}

/// What the server reports to its user. `M` is the type of a shard's metrics.
#[derive(Debug)]
pub enum RaknetServerEvent<M> {
    PeerConnected { peer_id: PeerId, addr: SocketAddr, shard_id: usize },
    PeerDisconnected { peer_id: PeerId, addr: SocketAddr, reason: PeerDisconnectReason },
    Packet {
        peer_id: PeerId,
        addr: SocketAddr,
        payload: bytes::Bytes,
        reliability: Reliability,
        reliable_index: Option<Sequence24>,
        sequence_index: Option<Sequence24>,
        ordering_index: Option<Sequence24>,
        ordering_channel: Option<u8>,
    },
    OfflinePacket { addr: SocketAddr, packet: OfflinePacket },
    ReceiptAcked { peer_id: PeerId, addr: SocketAddr, receipt_id: u64 },
    PeerRateLimited { addr: SocketAddr },
    SessionLimitReached { addr: SocketAddr },
    ProxyDropped { addr: SocketAddr },
    DecodeError { addr: SocketAddr, error: String },
    WorkerError { shard_id: usize, message: String },
    WorkerStopped { shard_id: usize },
    Metrics { shard_id: usize, snapshot: Box<M>, dropped_non_critical_events: u64 },
}

impl<M> RaknetServerEvent<M> {
    /// The shard, the metrics and the count of dropped events of a metrics
    /// event; `None` for any other event.
    pub fn metrics_snapshot(&self) -> (r: Option<(usize, &M, u64)>)
        ensures
            r == match self {
                RaknetServerEvent::Metrics { shard_id, snapshot, dropped_non_critical_events } => {
                    Some((*shard_id, &**snapshot, *dropped_non_critical_events))
                },
                _ => None,
            },
    {
        match self {
            RaknetServerEvent::Metrics { shard_id, snapshot, dropped_non_critical_events } => {
                Some((*shard_id, &**snapshot, *dropped_non_critical_events))
            },
            _ => None,
        }
    }
}

/// A new peer's connection, as handed to a connect hook.
#[derive(Debug, Clone, Copy, PartialEq, Eq, Structural)]
pub struct ConnectEvent {
    pub peer_id: PeerId,
    pub addr: SocketAddr,
    pub shard_id: usize,
}

/// A peer's payload, as handed to a packet hook.
#[derive(Debug, Clone)]
pub struct PacketEvent {
    pub peer_id: PeerId,
    pub addr: SocketAddr,
    pub payload: bytes::Bytes,
    pub reliability: Reliability,
    pub reliable_index: Option<Sequence24>,
    pub sequence_index: Option<Sequence24>,
    pub ordering_index: Option<Sequence24>,
    pub ordering_channel: Option<u8>,
}

/// A peer's departure, as handed to a disconnect hook.
#[derive(Debug, Clone, Copy, PartialEq, Eq, Structural)]
pub struct DisconnectEvent {
    pub peer_id: PeerId,
    pub addr: SocketAddr,
    pub reason: PeerDisconnectReason,
}

/// The hook an event is handed to, if any: connections, packets and
/// disconnections have one each; every other event has none.
pub enum HookEvent {
    Connect(ConnectEvent),
    Packet(PacketEvent),
    Disconnect(DisconnectEvent),
}

/// Which hook a server event goes to, and with what.
pub fn hook_event<M>(event: RaknetServerEvent<M>) -> (h: Option<HookEvent>)
    ensures
        h == match event {
            RaknetServerEvent::PeerConnected { peer_id, addr, shard_id } => Some(
                HookEvent::Connect(ConnectEvent { peer_id, addr, shard_id }),
            ),
            RaknetServerEvent::Packet {
                peer_id,
                addr,
                payload,
                reliability,
                reliable_index,
                sequence_index,
                ordering_index,
                ordering_channel,
            } => Some(
                HookEvent::Packet(
                    PacketEvent {
                        peer_id,
                        addr,
                        payload,
                        reliability,
                        reliable_index,
                        sequence_index,
                        ordering_index,
                        ordering_channel,
                    },
                ),
            ),
            RaknetServerEvent::PeerDisconnected { peer_id, addr, reason } => Some(
                HookEvent::Disconnect(DisconnectEvent { peer_id, addr, reason }),
            ),
            _ => None,
        },
{
    match event {
        RaknetServerEvent::PeerConnected { peer_id, addr, shard_id } => Some(
            HookEvent::Connect(ConnectEvent { peer_id, addr, shard_id }),
        ),
        RaknetServerEvent::Packet {
            peer_id,
            addr,
            payload,
            reliability,
            reliable_index,
            sequence_index,
            ordering_index,
            ordering_channel,
        } => Some(
            HookEvent::Packet(
                PacketEvent {
                    peer_id,
                    addr,
                    payload,
                    reliability,
                    reliable_index,
                    sequence_index,
                    ordering_index,
                    ordering_channel,
                },
            ),
        ),
        RaknetServerEvent::PeerDisconnected { peer_id, addr, reason } => Some(
            HookEvent::Disconnect(DisconnectEvent { peer_id, addr, reason }),
        ),
        _ => None,
    }
}

/// The configuration a server is started with.
#[derive(Debug, Clone)]
pub struct RaknetServerBuilder {
    pub transport_config: TransportConfig,
    pub runtime_config: ShardedRuntimeConfig,
}

impl Default for RaknetServerBuilder {
    fn default() -> (b: RaknetServerBuilder)
        ensures
            b.transport_config.bind_addr == (SocketAddr::V4 {
                ip: 0,
                port: crate::transport::config::DEFAULT_BIND_PORT,
            }),
            b.transport_config.advertisement@ == Seq::<char>::empty(),
            b.runtime_config.shard_count == 1,
    {
        RaknetServerBuilder {
            transport_config: TransportConfig::default(),
            runtime_config: ShardedRuntimeConfig::default(),
        }
    }
}

impl RaknetServerBuilder {
    pub fn transport_config(self, config: TransportConfig) -> (b: RaknetServerBuilder)
        ensures
            b.transport_config == config,
            b.runtime_config == self.runtime_config,
    {
        RaknetServerBuilder { transport_config: config, ..self }
    }

    pub fn runtime_config(self, config: ShardedRuntimeConfig) -> (b: RaknetServerBuilder)
        ensures
            b.transport_config == self.transport_config,
            b.runtime_config == config,
    {
        RaknetServerBuilder { runtime_config: config, ..self }
    }

    pub fn bind_addr(self, bind_addr: SocketAddr) -> (b: RaknetServerBuilder)
        ensures
            b.transport_config.bind_addr == bind_addr,
            b.transport_config.advertisement == self.transport_config.advertisement,
            b.runtime_config == self.runtime_config,
    {
        let mut b = self;
        b.transport_config.bind_addr = bind_addr;
        b
    }

    /// Sets the number of shards; zero counts as one.
    pub fn shard_count(self, shard_count: usize) -> (b: RaknetServerBuilder)
        ensures
            b.transport_config == self.transport_config,
            b.runtime_config.shard_count == if shard_count == 0 {
                1
            } else {
                shard_count
            },
    {
        let mut b = self;
        b.runtime_config.shard_count = if shard_count == 0 {
            1
        } else {
            shard_count
        };
        b
    }

    pub fn transport_config_mut(&mut self) -> (c: &mut TransportConfig)
        ensures
            *c == old(self).transport_config,
            final(self).transport_config == *final(c),
            final(self).runtime_config == old(self).runtime_config,
    {
        &mut self.transport_config
    }

    pub fn runtime_config_mut(&mut self) -> (c: &mut ShardedRuntimeConfig)
        ensures
            *c == old(self).runtime_config,
            final(self).runtime_config == *final(c),
            final(self).transport_config == old(self).transport_config,
    {
        &mut self.runtime_config
    }
}

/// The peer id a connected address is bound to, and the shard that serves it.
#[derive(Debug, Clone, Copy, PartialEq, Eq, Structural)]
pub struct PeerBinding {
    pub peer_id: PeerId,
    pub shard_id: usize,
}

/// Why a peer's route could not be found.
#[derive(Debug, Clone, Copy, PartialEq, Eq, Structural)]
pub enum PeerRouteError {
    /// No address is bound to the peer id.
    PeerNotFound,
    /// The peer id names an address that has no shard binding.
    ShardBindingMissing,
}

/// A server: the runtime handle `R` it drives, the bindings of connected
/// addresses to peer ids and shards (both ways), the events waiting to be
/// handed out (`M`: a shard's metrics), and the next peer id to assign.
pub struct RaknetServer<R, M> {
    runtime: R,
    peers_by_addr: Vec<(SocketAddr, PeerBinding)>,
    addrs_by_peer: Vec<(PeerId, SocketAddr)>,
    pending_events: VecDeque<RaknetServerEvent<M>>,
    next_peer_id: u64,
}

/// The Packet event for one delivered frame.
pub open spec fn packet_event<M>(peer_id: PeerId, addr: SocketAddr, f: ConnectedFrameDelivery) -> RaknetServerEvent<M> {
    RaknetServerEvent::Packet {
        peer_id,
        addr,
        payload: f.payload,
        reliability: f.reliability,
        reliable_index: f.reliable_index,
        sequence_index: f.sequence_index,
        ordering_index: f.ordering_index,
        ordering_channel: f.ordering_channel,
    }
}

/// The bindings of `bindings` served by shard `shard_id`, in order, as
/// (address, peer id).
pub open spec fn stopped_peers(bindings: Seq<(SocketAddr, PeerBinding)>, shard_id: usize) -> Seq<
    (SocketAddr, PeerId),
>
    decreases bindings.len(),
{
    if bindings.len() == 0 {
        Seq::empty()
    } else {
        let rest = stopped_peers(bindings.drop_last(), shard_id);
        if bindings.last().1.shard_id == shard_id {
            rest.push((bindings.last().0, bindings.last().1.peer_id))
        } else {
            rest
        }
    }
}

/// `m` without the peer ids of `peers`.
pub open spec fn without_peers(m: Map<PeerId, SocketAddr>, peers: Seq<(SocketAddr, PeerId)>) -> Map<
    PeerId,
    SocketAddr,
>
    decreases peers.len(),
{
    if peers.len() == 0 {
        m
    } else {
        without_peers(m, peers.drop_last()).remove(peers.last().1)
    }
}

/// The server's bindings: each connected address to its peer id and shard,
/// each peer id to its address, and the next peer id to assign.
#[verifier::ext_equal]
pub struct PeerBindingsView {
    pub by_addr: Map<SocketAddr, PeerBinding>,
    pub by_peer: Map<PeerId, SocketAddr>,
    pub next_peer_id: u64,
}

/// The bindings after `addr` is seen on shard `shard_id`, with the peer id it
/// is bound to and whether that peer is new: a bound address keeps its peer
/// id and moves to the shard; an unbound one gets the next peer id, bound
/// both ways, and the counter advances (stopping at `u64::MAX`).
pub open spec fn after_ensure_peer(v: PeerBindingsView, addr: SocketAddr, shard_id: usize) -> (
    PeerBindingsView,
    (PeerId, bool),
) {
    if v.by_addr.contains_key(addr) {
        let peer_id = v.by_addr[addr].peer_id;
        (
            PeerBindingsView {
                by_addr: v.by_addr.insert(addr, PeerBinding { peer_id, shard_id }),
                ..v
            },
            (peer_id, false),
        )
    } else {
        let peer_id = peer_id_of(v.next_peer_id);
        (
            PeerBindingsView {
                by_addr: v.by_addr.insert(addr, PeerBinding { peer_id, shard_id }),
                by_peer: v.by_peer.insert(peer_id, addr),
                next_peer_id: if v.next_peer_id < u64::MAX {
                    (v.next_peer_id + 1) as u64
                } else {
                    u64::MAX
                },
            },
            (peer_id, true),
        )
    }
}

/// The bindings after `addr` is unbound, with the peer id it was bound to:
/// the address goes, and so does that peer id.
pub open spec fn after_remove_peer(v: PeerBindingsView, addr: SocketAddr) -> (
    PeerBindingsView,
    Option<PeerId>,
) {
    if v.by_addr.contains_key(addr) {
        let peer_id = v.by_addr[addr].peer_id;
        (
            PeerBindingsView {
                by_addr: v.by_addr.remove(addr),
                by_peer: v.by_peer.remove(peer_id),
                ..v
            },
            Some(peer_id),
        )
    } else {
        (v, None)
    }
}

/// The bindings are consistent: each address's peer id is bound back to that
/// address, each peer id's address is bound back to that peer id, and every
/// peer id bound lies between 1 and the next one to assign.
pub open spec fn bindings_consistent(v: PeerBindingsView) -> bool {
    &&& forall|a: SocketAddr| #[trigger] v.by_addr.contains_key(a) ==> v.by_peer.contains_key(
        v.by_addr[a].peer_id,
    ) && v.by_peer[v.by_addr[a].peer_id] == a
    &&& forall|p: PeerId| #[trigger] v.by_peer.contains_key(p) ==> v.by_addr.contains_key(v.by_peer[p])
        && v.by_addr[v.by_peer[p]].peer_id == p
    &&& forall|p: PeerId| #[trigger] v.by_peer.contains_key(p) ==> 1 <= p@ < v.next_peer_id
}

/// The bindings after shard `shard_id` stopped: its peers, listed in `stopped`,
/// are unbound both ways.
pub open spec fn after_worker_stopped(
    v: PeerBindingsView,
    stopped: Seq<(SocketAddr, PeerId)>,
    shard_id: usize,
) -> PeerBindingsView {
    PeerBindingsView {
        by_addr: Map::new(
            |a: SocketAddr| v.by_addr.contains_key(a) && v.by_addr[a].shard_id != shard_id,
            |a: SocketAddr| v.by_addr[a],
        ),
        by_peer: without_peers(v.by_peer, stopped),
        ..v
    }
}

/// Each peer listed as stopped is bound to its address on that shard, the
/// listed addresses are distinct, and every binding on that shard is listed.
pub proof fn lemma_stopped_peers(bindings: Seq<(SocketAddr, PeerBinding)>, shard_id: usize)
    requires
        keys_distinct(bindings),
    ensures
        ({
            let l = stopped_peers(bindings, shard_id);
            let m = table_map(bindings);
            &&& forall|j: int|
                0 <= j < l.len() ==> m.contains_key((#[trigger] l[j]).0) && m[l[j].0] == (PeerBinding {
                    peer_id: l[j].1,
                    shard_id,
                })
            &&& forall|j1: int, j2: int| 0 <= j1 < j2 < l.len() ==> (#[trigger] l[j1]).0 != (#[trigger] l[j2]).0
            &&& forall|a: SocketAddr|
                m.contains_key(a) && m[a].shard_id == shard_id ==> exists|j: int|
                    0 <= j < l.len() && (#[trigger] l[j]).0 == a
        }),
    decreases bindings.len(),
{
    if bindings.len() > 0 {
        let t = bindings.drop_last();
        assert(keys_distinct(t)) by {
            assert forall|a: int, b: int| 0 <= a < b < t.len() implies (#[trigger] t[a]).0 != (
            #[trigger] t[b]).0 by {
                assert(t[a] == bindings[a] && t[b] == bindings[b]);
            }
        }
        lemma_stopped_peers(t, shard_id);
        crate::table::lemma_table_domain(t);
        crate::table::lemma_table_domain(bindings);
        let l = stopped_peers(bindings, shard_id);
        let lt = stopped_peers(t, shard_id);
        let m = table_map(bindings);
        let mt = table_map(t);
        let last = bindings.last();
        assert(!mt.contains_key(last.0)) by {
            if mt.contains_key(last.0) {
                let i = choose|i: int| 0 <= i < t.len() && (#[trigger] t[i]).0 == last.0;
                assert(t[i] == bindings[i]);
                assert(bindings[bindings.len() - 1] == last);
            }
        }
        assert(m == mt.insert(last.0, last.1));
        assert forall|j: int| 0 <= j < l.len() implies m.contains_key((#[trigger] l[j]).0)
            && m[l[j].0] == (PeerBinding { peer_id: l[j].1, shard_id }) by {
            if j < lt.len() {
                assert(l[j] == lt[j]);
            }
        }
        assert forall|j1: int, j2: int| 0 <= j1 < j2 < l.len() implies (#[trigger] l[j1]).0 != (
        #[trigger] l[j2]).0 by {
            assert(l[j1] == lt[j1]);
            if j2 < lt.len() {
                assert(l[j2] == lt[j2]);
            }
        }
        assert forall|a: SocketAddr| m.contains_key(a) && m[a].shard_id == shard_id implies exists|j: int|
            0 <= j < l.len() && (#[trigger] l[j]).0 == a by {
            if a == last.0 {
                assert(l[l.len() - 1].0 == a);
            } else {
                let j = choose|j: int| 0 <= j < lt.len() && (#[trigger] lt[j]).0 == a;
                assert(l[j] == lt[j]);
            }
        }
    }
}

/// The bindings after a runtime event (`bindings`: the current bindings in
/// order), and the events the server reports for it, in order.
pub open spec fn after_runtime_event<M>(
    v: PeerBindingsView,
    bindings: Seq<(SocketAddr, PeerBinding)>,
    event: ShardedRuntimeEvent<M>,
) -> (PeerBindingsView, Seq<RaknetServerEvent<M>>) {
    match event {
        ShardedRuntimeEvent::Transport { shard_id, event } => match event {
            TransportEvent::PeerDisconnected { addr, reason } => {
                let (w, removed) = after_remove_peer(v, addr);
                match removed {
                    Some(peer_id) => (
                        w,
                        seq![
                            RaknetServerEvent::PeerDisconnected {
                                peer_id,
                                addr,
                                reason: peer_reason_of_remote(reason),
                            },
                        ],
                    ),
                    None => (w, Seq::empty()),
                }
            },
            TransportEvent::ConnectedFrames { addr, frames, acked_receipt_ids } => {
                let (w, (peer_id, is_new)) = after_ensure_peer(v, addr, shard_id);
                let connected: Seq<RaknetServerEvent<M>> = if is_new {
                    seq![RaknetServerEvent::PeerConnected { peer_id, addr, shard_id }]
                } else {
                    Seq::empty()
                };
                (
                    w,
                    connected + Seq::new(
                        frames@.len(),
                        |i: int| packet_event(peer_id, addr, frames@[i]),
                    ) + Seq::new(
                        acked_receipt_ids@.len(),
                        |i: int|
                            RaknetServerEvent::ReceiptAcked {
                                peer_id,
                                addr,
                                receipt_id: acked_receipt_ids@[i],
                            },
                    ),
                )
            },
            TransportEvent::RateLimited { addr } => (
                v,
                seq![RaknetServerEvent::PeerRateLimited { addr }],
            ),
            TransportEvent::SessionLimitReached { addr } => (
                v,
                seq![RaknetServerEvent::SessionLimitReached { addr }],
            ),
            TransportEvent::ConnectedDatagramDroppedNoSession { .. } => (v, Seq::empty()),
            TransportEvent::ProxyDropped { addr } => (
                v,
                seq![RaknetServerEvent::ProxyDropped { addr }],
            ),
            TransportEvent::DecodeError { addr, error } => (
                v,
                seq![RaknetServerEvent::DecodeError { addr, error }],
            ),
            TransportEvent::OfflinePacket { addr, packet } => (
                v,
                seq![RaknetServerEvent::OfflinePacket { addr, packet }],
            ),
        },
        ShardedRuntimeEvent::Metrics { shard_id, snapshot, dropped_non_critical_events } => (
            v,
            seq![RaknetServerEvent::Metrics { shard_id, snapshot, dropped_non_critical_events }],
        ),
        ShardedRuntimeEvent::WorkerError { shard_id, message } => (
            v,
            seq![RaknetServerEvent::WorkerError { shard_id, message }],
        ),
        ShardedRuntimeEvent::WorkerStopped { shard_id } => {
            let stopped = stopped_peers(bindings, shard_id);
            (
                after_worker_stopped(v, stopped, shard_id),
                Seq::new(
                    stopped.len(),
                    |j: int|
                        RaknetServerEvent::PeerDisconnected {
                            peer_id: stopped[j].1,
                            addr: stopped[j].0,
                            reason: PeerDisconnectReason::WorkerStopped { shard_id },
                        },
                ).push(RaknetServerEvent::WorkerStopped { shard_id }),
            )
        },
    }
}

impl<R, M> RaknetServer<R, M> {
    pub closed spec fn runtime_handle(&self) -> R {
        self.runtime
    }

    /// The runtime handle the server drives.
    pub fn runtime(&self) -> (r: &R)
        ensures
            *r == self.runtime_handle(),
    {
        &self.runtime
    }

    /// The runtime handle, to drive it; nothing else of the server changes.
    pub fn runtime_mut(&mut self) -> (r: &mut R)
        ensures
            *r == old(self).runtime_handle(),
            final(self).runtime_handle() == *final(r),
            final(self).bindings_view() == old(self).bindings_view(),
            final(self).bindings() == old(self).bindings(),
            final(self).pending() == old(self).pending(),
            final(self).wf() == old(self).wf(),
    {
        &mut self.runtime
    }

    /// The runtime handle, the server given up.
    pub fn into_runtime(self) -> (r: R)
        ensures
            r == self.runtime_handle(),
    {
        self.runtime
    }

    /// Connected addresses, with the peer id and the shard each is bound to.
    pub closed spec fn peers_by_addr(&self) -> Map<SocketAddr, PeerBinding> {
        table_map(self.peers_by_addr@)
    }

    /// The address each peer id is bound to.
    pub closed spec fn addrs_by_peer(&self) -> Map<PeerId, SocketAddr> {
        table_map(self.addrs_by_peer@)
    }

    /// The bindings in the order they were made.
    pub closed spec fn bindings(&self) -> Seq<(SocketAddr, PeerBinding)> {
        self.peers_by_addr@
    }

    pub closed spec fn pending(&self) -> Seq<RaknetServerEvent<M>> {
        self.pending_events@
    }

    pub closed spec fn next_peer_id(&self) -> u64 {
        self.next_peer_id
    }

    /// The bindings, both ways, and the next peer id.
    pub open spec fn bindings_view(&self) -> PeerBindingsView {
        PeerBindingsView {
            by_addr: self.peers_by_addr(),
            by_peer: self.addrs_by_peer(),
            next_peer_id: self.next_peer_id(),
        }
    }

    /// No address or peer id is bound twice.
    pub closed spec fn wf(&self) -> bool {
        &&& keys_distinct(self.peers_by_addr@)
        &&& keys_distinct(self.addrs_by_peer@)
        &&& self.next_peer_id >= 1
        &&& self.next_peer_id < u64::MAX ==> bindings_consistent(self.bindings_view())
    }

    /// While peer ids are not exhausted, every server's bindings are
    /// consistent: an address and a peer id are bound to each other both ways
    /// or not at all, every bound peer has a shard, and every bound peer id
    /// lies between 1 and the next one to assign (which never decreases, so a
    /// new address never gets an id used before).
    pub proof fn lemma_wf_consistent(&self)
        requires
            self.wf(),
            self.next_peer_id() < u64::MAX,
        ensures
            bindings_consistent(self.bindings_view()),
            forall|p: PeerId| #[trigger] self.addrs_by_peer().contains_key(p)
                ==> self.peers_by_addr().contains_key(self.addrs_by_peer()[p])
                && self.peers_by_addr()[self.addrs_by_peer()[p]].peer_id == p,
            forall|a: SocketAddr| #[trigger] self.peers_by_addr().contains_key(a)
                ==> self.addrs_by_peer().contains_key(self.peers_by_addr()[a].peer_id)
                && self.addrs_by_peer()[self.peers_by_addr()[a].peer_id] == a,
            forall|p: PeerId| #[trigger] self.addrs_by_peer().contains_key(p) ==> 1 <= p@ < self.next_peer_id(),
    {
        let v = self.bindings_view();
        assert forall|p: PeerId| #[trigger] self.addrs_by_peer().contains_key(p) implies
            self.peers_by_addr().contains_key(self.addrs_by_peer()[p])
                && self.peers_by_addr()[self.addrs_by_peer()[p]].peer_id == p
                && 1 <= p@ < self.next_peer_id() by {
            assert(v.by_peer.contains_key(p));
        }
        assert forall|a: SocketAddr| #[trigger] self.peers_by_addr().contains_key(a) implies
            self.addrs_by_peer().contains_key(self.peers_by_addr()[a].peer_id)
                && self.addrs_by_peer()[self.peers_by_addr()[a].peer_id] == a by {
            assert(v.by_addr.contains_key(a));
        }
    }

    pub proof fn lemma_bindings(&self)
        requires
            self.wf(),
        ensures
            self.peers_by_addr() == table_map(self.bindings()),
            keys_distinct(self.bindings()),
    {
    }

    /// A builder with the default configuration.
    pub fn builder() -> (b: RaknetServerBuilder)
        ensures
            b.transport_config.bind_addr == (SocketAddr::V4 {
                ip: 0,
                port: crate::transport::config::DEFAULT_BIND_PORT,
            }),
            b.transport_config.advertisement@ == Seq::<char>::empty(),
            b.runtime_config.shard_count == 1,
    {
        RaknetServerBuilder::default()
    }

    /// A server driving `runtime`, with no peers, no pending events, and peer
    /// ids assigned from 1.
    pub fn new(runtime: R) -> (s: Self)
        ensures
            s.wf(),
            s.runtime_handle() == runtime,
            s.peers_by_addr() == Map::<SocketAddr, PeerBinding>::empty(),
            s.addrs_by_peer() == Map::<PeerId, SocketAddr>::empty(),
            s.bindings() == Seq::<(SocketAddr, PeerBinding)>::empty(),
            s.pending() == Seq::<RaknetServerEvent<M>>::empty(),
            s.next_peer_id() == 1,
    {
        let s = RaknetServer {
            runtime,
            peers_by_addr: Vec::new(),
            addrs_by_peer: Vec::new(),
            pending_events: VecDeque::new(),
            next_peer_id: 1,
        };
        assert(s.peers_by_addr() =~= Map::empty());
        assert(s.addrs_by_peer() =~= Map::empty());
        s
    }

    /// The address `peer_id` is bound to.
    pub fn peer_addr(&self, peer_id: PeerId) -> (r: Option<SocketAddr>)
        requires
            self.wf(),
        ensures
            r == if self.addrs_by_peer().contains_key(peer_id) {
                Some(self.addrs_by_peer()[peer_id])
            } else {
                None::<SocketAddr>
            },
    {
        match table_find(&self.addrs_by_peer, &peer_id) {
            Some(i) => Some(self.addrs_by_peer[i].1),
            None => None,
        }
    }

    /// The shard serving `peer_id`: the shard bound to its address.
    pub fn peer_shard(&self, peer_id: PeerId) -> (r: Option<usize>)
        requires
            self.wf(),
        ensures
            r == if self.addrs_by_peer().contains_key(peer_id) && self.peers_by_addr().contains_key(
                self.addrs_by_peer()[peer_id],
            ) {
                Some(self.peers_by_addr()[self.addrs_by_peer()[peer_id]].shard_id)
            } else {
                None::<usize>
            },
    {
        let addr = match self.peer_addr(peer_id) {
            Some(addr) => addr,
            None => return None,
        };
        match table_find(&self.peers_by_addr, &addr) {
            Some(i) => Some(self.peers_by_addr[i].1.shard_id),
            None => None,
        }
    }

    /// The peer id bound to `addr`.
    pub fn peer_id_for_addr(&self, addr: SocketAddr) -> (r: Option<PeerId>)
        requires
            self.wf(),
        ensures
            r == if self.peers_by_addr().contains_key(addr) {
                Some(self.peers_by_addr()[addr].peer_id)
            } else {
                None::<PeerId>
            },
    {
        match table_find(&self.peers_by_addr, &addr) {
            Some(i) => Some(self.peers_by_addr[i].1.peer_id),
            None => None,
        }
    }

    /// Where to send to `peer_id`: its address and the shard bound to it.
    pub fn resolve_peer_route(&self, peer_id: PeerId) -> (r: Result<(SocketAddr, usize), PeerRouteError>)
        requires
            self.wf(),
        ensures
            r == if !self.addrs_by_peer().contains_key(peer_id) {
                Err(PeerRouteError::PeerNotFound)
            } else if !self.peers_by_addr().contains_key(self.addrs_by_peer()[peer_id]) {
                Err(PeerRouteError::ShardBindingMissing)
            } else {
                Ok::<(SocketAddr, usize), PeerRouteError>(
                    (
                        self.addrs_by_peer()[peer_id],
                        self.peers_by_addr()[self.addrs_by_peer()[peer_id]].shard_id,
                    ),
                )
            },
    {
        let addr = match self.peer_addr(peer_id) {
            Some(addr) => addr,
            None => return Err(PeerRouteError::PeerNotFound),
        };
        match table_find(&self.peers_by_addr, &addr) {
            Some(i) => Ok((addr, self.peers_by_addr[i].1.shard_id)),
            None => Err(PeerRouteError::ShardBindingMissing),
        }
    }

    /// The peer bound to `addr`, rebound to `shard_id`; or, for an unbound
    /// address, a new peer id (the next one; the counter stops at
    /// `u64::MAX`) bound to it both ways. Whether the peer is new.
    pub fn ensure_peer(&mut self, addr: SocketAddr, shard_id: usize) -> (r: (PeerId, bool))
        requires
            old(self).wf(),
        ensures
            final(self).wf(),
            final(self).runtime_handle() == old(self).runtime_handle(),
            final(self).pending() == old(self).pending(),
            (final(self).bindings_view(), r) == after_ensure_peer(old(self).bindings_view(), addr, shard_id),
    {
        proof {
            if self.next_peer_id < u64::MAX {
                lemma_ensure_peer_consistent(self.bindings_view(), addr, shard_id);
            }
        }
        match table_find(&self.peers_by_addr, &addr) {
            Some(i) => {
                let peer_id = self.peers_by_addr[i].1.peer_id;
                table_set(&mut self.peers_by_addr, addr, PeerBinding { peer_id, shard_id });
                (peer_id, false)
            },
            None => {
                let peer_id = PeerId(self.next_peer_id);
                self.next_peer_id = self.next_peer_id.saturating_add(1);
                table_set(&mut self.peers_by_addr, addr, PeerBinding { peer_id, shard_id });
                table_set(&mut self.addrs_by_peer, peer_id, addr);
                (peer_id, true)
            },
        }
    }

    /// Unbinds `addr` and the peer id bound to it; that peer id, if there was one.
    pub fn remove_peer(&mut self, addr: SocketAddr) -> (r: Option<PeerId>)
        requires
            old(self).wf(),
        ensures
            final(self).wf(),
            final(self).runtime_handle() == old(self).runtime_handle(),
            final(self).pending() == old(self).pending(),
            (final(self).bindings_view(), r) == after_remove_peer(old(self).bindings_view(), addr),
    {
        proof {
            if self.next_peer_id < u64::MAX {
                lemma_remove_peer_consistent(self.bindings_view(), addr);
            }
        }
        match table_take(&mut self.peers_by_addr, &addr) {
            Some(binding) => {
                let _ = table_take(&mut self.addrs_by_peer, &binding.peer_id);
                Some(binding.peer_id)
            },
            None => None,
        }
    }

    /// Takes in one runtime event: binds or unbinds peers as it reports, and
    /// appends the events the server reports for it to the pending ones.
    pub fn enqueue_runtime_event(&mut self, runtime_event: ShardedRuntimeEvent<M>)
        requires
            old(self).wf(),
        ensures
            final(self).wf(),
            final(self).runtime_handle() == old(self).runtime_handle(),
            ({
                let (w, events) = after_runtime_event(
                    old(self).bindings_view(),
                    old(self).bindings(),
                    runtime_event,
                );
                &&& final(self).bindings_view() == w
                &&& final(self).pending() == old(self).pending() + events
            }),
    {
        let ghost v0 = self.bindings_view();
        let ghost b0 = self.bindings();
        let ghost p0 = self.pending();
        let ghost ev = runtime_event;
        match runtime_event {
            ShardedRuntimeEvent::Transport { shard_id, event } => match event {
                TransportEvent::PeerDisconnected { addr, reason } => {
                    if let Some(peer_id) = self.remove_peer(addr) {
                        let reason = match reason {
                            RemoteDisconnectReason::DisconnectionNotification { reason_code } => {
                                PeerDisconnectReason::RemoteDisconnectionNotification { reason_code }
                            },
                            RemoteDisconnectReason::DetectLostConnection => {
                                PeerDisconnectReason::RemoteDetectLostConnection
                            },
                        };
                        self.pending_events.push_back(
                            RaknetServerEvent::PeerDisconnected { peer_id, addr, reason },
                        );
                    }
                    assert(self.pending() =~= p0 + after_runtime_event(v0, b0, ev).1);
                },
                TransportEvent::ConnectedFrames { addr, frames, acked_receipt_ids } => {
                    let ghost fr = frames@;
                    let (peer_id, is_new) = self.ensure_peer(addr, shard_id);
                    if is_new {
                        self.pending_events.push_back(
                            RaknetServerEvent::PeerConnected { peer_id, addr, shard_id },
                        );
                    }
                    let ghost p1 = self.pending();
                    let mut frames = frames;
                    let n = frames.len();
                    let mut k: usize = 0;
                    while k < n
                        invariant
                            self.wf(),
                            self.runtime_handle() == old(self).runtime_handle(),
                            self.bindings_view() == after_ensure_peer(v0, addr, shard_id).0,
                            n == fr.len(),
                            k <= n,
                            frames@ == fr.subrange(k as int, n as int),
                            self.pending() == p1 + Seq::new(
                                k as nat,
                                |i: int| packet_event::<M>(peer_id, addr, fr[i]),
                            ),
                        decreases n - k,
                    {
                        let frame = frames.remove(0);
                        self.pending_events.push_back(
                            RaknetServerEvent::Packet {
                                peer_id,
                                addr,
                                payload: frame.payload,
                                reliability: frame.reliability,
                                reliable_index: frame.reliable_index,
                                sequence_index: frame.sequence_index,
                                ordering_index: frame.ordering_index,
                                ordering_channel: frame.ordering_channel,
                            },
                        );
                        k = k + 1;
                        assert(frames@ =~= fr.subrange(k as int, n as int));
                        assert(self.pending() =~= p1 + Seq::new(
                            k as nat,
                            |i: int| packet_event::<M>(peer_id, addr, fr[i]),
                        ));
                    }
                    let ghost p2 = self.pending();
                    let mut r: usize = 0;
                    while r < acked_receipt_ids.len()
                        invariant
                            self.wf(),
                            self.runtime_handle() == old(self).runtime_handle(),
                            self.bindings_view() == after_ensure_peer(v0, addr, shard_id).0,
                            r <= acked_receipt_ids@.len(),
                            self.pending() == p2 + Seq::new(
                                r as nat,
                                |i: int|
                                    RaknetServerEvent::<M>::ReceiptAcked {
                                        peer_id,
                                        addr,
                                        receipt_id: acked_receipt_ids@[i],
                                    },
                            ),
                        decreases acked_receipt_ids@.len() - r,
                    {
                        self.pending_events.push_back(
                            RaknetServerEvent::ReceiptAcked {
                                peer_id,
                                addr,
                                receipt_id: acked_receipt_ids[r],
                            },
                        );
                        r = r + 1;
                        assert(self.pending() =~= p2 + Seq::new(
                            r as nat,
                            |i: int|
                                RaknetServerEvent::<M>::ReceiptAcked {
                                    peer_id,
                                    addr,
                                    receipt_id: acked_receipt_ids@[i],
                                },
                        ));
                    }
                    assert(self.pending() =~= p0 + after_runtime_event(v0, b0, ev).1);
                },
                TransportEvent::RateLimited { addr } => {
                    self.pending_events.push_back(RaknetServerEvent::PeerRateLimited { addr });
                    assert(self.pending() =~= p0 + after_runtime_event(v0, b0, ev).1);
                },
                TransportEvent::SessionLimitReached { addr } => {
                    self.pending_events.push_back(RaknetServerEvent::SessionLimitReached { addr });
                    assert(self.pending() =~= p0 + after_runtime_event(v0, b0, ev).1);
                },
                TransportEvent::ConnectedDatagramDroppedNoSession { .. } => {
                    assert(self.pending() =~= p0 + after_runtime_event(v0, b0, ev).1);
                },
                TransportEvent::ProxyDropped { addr } => {
                    self.pending_events.push_back(RaknetServerEvent::ProxyDropped { addr });
                    assert(self.pending() =~= p0 + after_runtime_event(v0, b0, ev).1);
                },
                TransportEvent::DecodeError { addr, error } => {
                    self.pending_events.push_back(RaknetServerEvent::DecodeError { addr, error });
                    assert(self.pending() =~= p0 + after_runtime_event(v0, b0, ev).1);
                },
                TransportEvent::OfflinePacket { addr, packet } => {
                    self.pending_events.push_back(RaknetServerEvent::OfflinePacket { addr, packet });
                    assert(self.pending() =~= p0 + after_runtime_event(v0, b0, ev).1);
                },
            },
            ShardedRuntimeEvent::Metrics { shard_id, snapshot, dropped_non_critical_events } => {
                self.pending_events.push_back(
                    RaknetServerEvent::Metrics { shard_id, snapshot, dropped_non_critical_events },
                );
                assert(self.pending() =~= p0 + after_runtime_event(v0, b0, ev).1);
            },
            ShardedRuntimeEvent::WorkerError { shard_id, message } => {
                self.pending_events.push_back(RaknetServerEvent::WorkerError { shard_id, message });
                assert(self.pending() =~= p0 + after_runtime_event(v0, b0, ev).1);
            },
            ShardedRuntimeEvent::WorkerStopped { shard_id } => {
                self.disconnect_shard(shard_id);
                self.pending_events.push_back(RaknetServerEvent::WorkerStopped { shard_id });
                assert(self.pending() =~= p0 + after_runtime_event(v0, b0, ev).1);
            },
        }
    }

    /// Unbinds every peer served by shard `shard_id`, reporting each as
    /// disconnected because its worker stopped, in the order of the bindings.
    fn disconnect_shard(&mut self, shard_id: usize)
        requires
            old(self).wf(),
        ensures
            final(self).wf(),
            final(self).runtime_handle() == old(self).runtime_handle(),
            ({
                let stopped = stopped_peers(old(self).bindings(), shard_id);
                &&& final(self).bindings_view() == after_worker_stopped(
                    old(self).bindings_view(),
                    stopped,
                    shard_id,
                )
                &&& final(self).pending() == old(self).pending() + Seq::new(
                    stopped.len(),
                    |j: int|
                        RaknetServerEvent::<M>::PeerDisconnected {
                            peer_id: stopped[j].1,
                            addr: stopped[j].0,
                            reason: PeerDisconnectReason::WorkerStopped { shard_id },
                        },
                )
            }),
    {
        let ghost b0 = self.bindings();
        let ghost v0 = self.bindings_view();
        let ghost p0 = self.pending();
        let ghost l = stopped_peers(b0, shard_id);
        let mut disconnected: Vec<(SocketAddr, PeerId)> = Vec::new();
        let mut i: usize = 0;
        while i < self.peers_by_addr.len()
            invariant
                self.peers_by_addr@ == b0,
                i <= b0.len(),
                disconnected@ == stopped_peers(b0.take(i as int), shard_id),
            decreases b0.len() - i,
        {
            let (addr, binding) = self.peers_by_addr[i];
            proof {
                assert(b0.take(i + 1).drop_last() =~= b0.take(i as int));
            }
            if binding.shard_id == shard_id {
                disconnected.push((addr, binding.peer_id));
            }
            i = i + 1;
        }
        proof {
            assert(b0.take(i as int) =~= b0);
            lemma_stopped_peers(b0, shard_id);
        }
        let mut k: usize = 0;
        while k < disconnected.len()
            invariant
                self.wf(),
                self.runtime_handle() == old(self).runtime_handle(),
                disconnected@ == l,
                l == stopped_peers(b0, shard_id),
                v0.by_addr == table_map(b0),
                k <= l.len(),
                forall|j: int|
                    0 <= j < l.len() ==> v0.by_addr.contains_key((#[trigger] l[j]).0)
                        && v0.by_addr[l[j].0] == (PeerBinding { peer_id: l[j].1, shard_id }),
                forall|j1: int, j2: int| 0 <= j1 < j2 < l.len() ==> (#[trigger] l[j1]).0 != (#[trigger] l[j2]).0,
                self.next_peer_id() == v0.next_peer_id,
                self.peers_by_addr() == Map::new(
                    |a: SocketAddr|
                        v0.by_addr.contains_key(a) && !(exists|j: int| 0 <= j < k && (#[trigger] l[j]).0 == a),
                    |a: SocketAddr| v0.by_addr[a],
                ),
                self.addrs_by_peer() == without_peers(v0.by_peer, l.take(k as int)),
                self.pending() == p0 + Seq::new(
                    k as nat,
                    |j: int|
                        RaknetServerEvent::<M>::PeerDisconnected {
                            peer_id: l[j].1,
                            addr: l[j].0,
                            reason: PeerDisconnectReason::WorkerStopped { shard_id },
                        },
                ),
            decreases l.len() - k,
        {
            let (addr, peer_id) = disconnected[k];
            let ghost before = self.peers_by_addr();
            assert(before.contains_key(addr)) by {
                assert(l[k as int].0 == addr);
                if exists|j: int| 0 <= j < k && (#[trigger] l[j]).0 == addr {
                    let j = choose|j: int| 0 <= j < k && (#[trigger] l[j]).0 == addr;
                    assert(l[j].0 != l[k as int].0);
                }
            }
            let removed = self.remove_peer(addr);
            assert(removed == Some(peer_id));
            self.pending_events.push_back(
                RaknetServerEvent::PeerDisconnected {
                    peer_id,
                    addr,
                    reason: PeerDisconnectReason::WorkerStopped { shard_id },
                },
            );
            k = k + 1;
            proof {
                assert(l.take(k as int).drop_last() =~= l.take(k - 1));
                assert(l.take(k as int).last() == l[k - 1]);
                assert(self.peers_by_addr() =~= Map::new(
                    |a: SocketAddr|
                        v0.by_addr.contains_key(a) && !(exists|j: int| 0 <= j < k && (#[trigger] l[j]).0 == a),
                    |a: SocketAddr| v0.by_addr[a],
                )) by {
                    assert forall|a: SocketAddr| #[trigger] self.peers_by_addr().contains_key(a) <==> (
                    v0.by_addr.contains_key(a) && !(exists|j: int| 0 <= j < k && (#[trigger] l[j]).0 == a)) by {
                        if a == addr {
                            assert(l[k - 1].0 == a);
                        } else if exists|j: int| 0 <= j < k && (#[trigger] l[j]).0 == a {
                            let j = choose|j: int| 0 <= j < k && (#[trigger] l[j]).0 == a;
                            assert(j != k - 1);
                        }
                    }
                }
                assert(self.pending() =~= p0 + Seq::new(
                    k as nat,
                    |j: int|
                        RaknetServerEvent::<M>::PeerDisconnected {
                            peer_id: l[j].1,
                            addr: l[j].0,
                            reason: PeerDisconnectReason::WorkerStopped { shard_id },
                        },
                ));
            }
        }
        proof {
            assert(l.take(k as int) =~= l);
            assert(self.peers_by_addr() =~= Map::new(
                |a: SocketAddr| v0.by_addr.contains_key(a) && v0.by_addr[a].shard_id != shard_id,
                |a: SocketAddr| v0.by_addr[a],
            )) by {
                assert forall|a: SocketAddr| #[trigger] self.peers_by_addr().contains_key(a) <==> (
                v0.by_addr.contains_key(a) && v0.by_addr[a].shard_id != shard_id) by {
                    if v0.by_addr.contains_key(a) && v0.by_addr[a].shard_id == shard_id {
                        let j = choose|j: int| 0 <= j < l.len() && (#[trigger] l[j]).0 == a;
                        assert(0 <= j < k && l[j].0 == a);
                    }
                    if exists|j: int| 0 <= j < k && (#[trigger] l[j]).0 == a {
                        let j = choose|j: int| 0 <= j < k && (#[trigger] l[j]).0 == a;
                        assert(v0.by_addr[l[j].0].shard_id == shard_id);
                    }
                }
            }
            assert(self.bindings_view() =~= after_worker_stopped(v0, l, shard_id));
        }
    }

    /// The oldest pending event, taken out of the queue.
    pub fn take_pending_event(&mut self) -> (r: Option<RaknetServerEvent<M>>)
        requires
            old(self).wf(),
        ensures
            final(self).wf(),
            final(self).runtime_handle() == old(self).runtime_handle(),
            final(self).bindings_view() == old(self).bindings_view(),
            final(self).bindings() == old(self).bindings(),
            old(self).pending().len() == 0 ==> r is None && final(self).pending() == old(self).pending(),
            old(self).pending().len() > 0 ==> r == Some(old(self).pending()[0]) && final(self).pending()
                == old(self).pending().drop_first(),
    {
        self.pending_events.pop_front()
    }

    /// Records that the runtime disconnected `peer_id` at `addr` on the
    /// server's request: `addr` is unbound, and the peer is reported as
    /// disconnected because it was asked to be.
    pub fn finish_disconnect(&mut self, peer_id: PeerId, addr: SocketAddr)
        requires
            old(self).wf(),
            old(self).addrs_by_peer().contains_key(peer_id),
            old(self).addrs_by_peer()[peer_id] == addr,
        ensures
            final(self).wf(),
            final(self).runtime_handle() == old(self).runtime_handle(),
            final(self).bindings_view() == after_remove_peer(old(self).bindings_view(), addr).0,
            final(self).pending() == old(self).pending().push(
                RaknetServerEvent::PeerDisconnected {
                    peer_id,
                    addr,
                    reason: PeerDisconnectReason::Requested,
                },
            ),
    {
        let _ = self.remove_peer(addr);
        self.pending_events.push_back(
            RaknetServerEvent::PeerDisconnected { peer_id, addr, reason: PeerDisconnectReason::Requested },
        );
    }
}

/// A peer id stays bound in `without_peers` exactly when it is not listed,
/// and keeps its address.
pub proof fn lemma_without_peers(m: Map<PeerId, SocketAddr>, l: Seq<(SocketAddr, PeerId)>)
    ensures
        forall|p: PeerId| #[trigger] without_peers(m, l).contains_key(p) <==> (m.contains_key(p) && !(
        exists|j: int| 0 <= j < l.len() && (#[trigger] l[j]).1 == p)),
        forall|p: PeerId| #[trigger] without_peers(m, l).contains_key(p) ==> without_peers(m, l)[p]
            == m[p],
    decreases l.len(),
{
    if l.len() > 0 {
        let t = l.drop_last();
        lemma_without_peers(m, t);
        assert(without_peers(m, l) == without_peers(m, t).remove(l.last().1));
        assert forall|p: PeerId| #[trigger] without_peers(m, l).contains_key(p) <==> (m.contains_key(p)
            && !(exists|j: int| 0 <= j < l.len() && (#[trigger] l[j]).1 == p)) by {
            assert(without_peers(m, t).contains_key(p) <==> (m.contains_key(p) && !(exists|j: int|
                0 <= j < t.len() && (#[trigger] t[j]).1 == p)));
            if p == l.last().1 {
                assert(l[l.len() - 1].1 == p);
            }
            if exists|j: int| 0 <= j < l.len() && (#[trigger] l[j]).1 == p {
                let j = choose|j: int| 0 <= j < l.len() && (#[trigger] l[j]).1 == p;
                if j < t.len() {
                    assert(t[j] == l[j]);
                }
            }
            if exists|j: int| 0 <= j < t.len() && (#[trigger] t[j]).1 == p {
                let j = choose|j: int| 0 <= j < t.len() && (#[trigger] t[j]).1 == p;
                assert(t[j] == l[j]);
            }
        }
    }
}

/// Seeing an address keeps the bindings consistent, as long as peer ids are
/// not exhausted; a new peer gets an id that no address was bound to.
pub proof fn lemma_ensure_peer_consistent(v: PeerBindingsView, addr: SocketAddr, shard_id: usize)
    requires
        bindings_consistent(v),
        1 <= v.next_peer_id < u64::MAX,
    ensures
        bindings_consistent(after_ensure_peer(v, addr, shard_id).0),
        after_ensure_peer(v, addr, shard_id).1.1 ==> !v.by_peer.contains_key(
            after_ensure_peer(v, addr, shard_id).1.0,
        ),
{
    lemma_peer_id_of(v.next_peer_id);
    let w = after_ensure_peer(v, addr, shard_id).0;
    if !v.by_addr.contains_key(addr) {
        let id = peer_id_of(v.next_peer_id);
        assert forall|a: SocketAddr| #[trigger] w.by_addr.contains_key(a) implies w.by_peer.contains_key(
            w.by_addr[a].peer_id,
        ) && w.by_peer[w.by_addr[a].peer_id] == a by {
            if a != addr {
                assert(v.by_peer.contains_key(v.by_addr[a].peer_id));
                assert(v.by_addr[a].peer_id@ < v.next_peer_id);
            }
        }
        assert forall|p: PeerId| #[trigger] w.by_peer.contains_key(p) implies w.by_addr.contains_key(
            w.by_peer[p],
        ) && w.by_addr[w.by_peer[p]].peer_id == p by {
            if p != id {
                assert(v.by_addr.contains_key(v.by_peer[p]));
            }
        }
        assert forall|p: PeerId| #[trigger] w.by_peer.contains_key(p) implies p@ < w.next_peer_id by {
            if p != id {
                assert(v.by_peer.contains_key(p));
            }
        }
    } else {
        assert forall|p: PeerId| #[trigger] w.by_peer.contains_key(p) implies w.by_addr.contains_key(
            w.by_peer[p],
        ) && w.by_addr[w.by_peer[p]].peer_id == p by {
            assert(v.by_addr.contains_key(v.by_peer[p]));
        }
    }
}

/// Unbinding an address keeps the bindings consistent.
pub proof fn lemma_remove_peer_consistent(v: PeerBindingsView, addr: SocketAddr)
    requires
        bindings_consistent(v),
    ensures
        bindings_consistent(after_remove_peer(v, addr).0),
        after_remove_peer(v, addr).1 matches Some(p) ==> v.by_peer.contains_key(p) && v.by_peer[p]
            == addr,
{
    let w = after_remove_peer(v, addr).0;
    if v.by_addr.contains_key(addr) {
        let id = v.by_addr[addr].peer_id;
        assert forall|a: SocketAddr| #[trigger] w.by_addr.contains_key(a) implies w.by_peer.contains_key(
            w.by_addr[a].peer_id,
        ) && w.by_peer[w.by_addr[a].peer_id] == a by {
            assert(v.by_peer.contains_key(v.by_addr[a].peer_id));
        }
        assert forall|p: PeerId| #[trigger] w.by_peer.contains_key(p) implies w.by_addr.contains_key(
            w.by_peer[p],
        ) && w.by_addr[w.by_peer[p]].peer_id == p by {
            assert(v.by_addr.contains_key(v.by_peer[p]));
        }
    }
}

/// After an address is seen on a shard, the peer it is bound to routes to
/// that address and shard, and the address maps back to that peer.
pub proof fn lemma_ensure_peer_routes(v: PeerBindingsView, addr: SocketAddr, shard_id: usize)
    requires
        bindings_consistent(v),
    ensures
        ({
            let (w, (p, _)) = after_ensure_peer(v, addr, shard_id);
            &&& w.by_peer.contains_key(p) && w.by_peer[p] == addr
            &&& w.by_addr.contains_key(addr) && w.by_addr[addr] == (PeerBinding { peer_id: p, shard_id })
        }),
{
}

/// Every runtime event keeps the bindings consistent, as long as peer ids
/// are not exhausted (`bindings` being the bindings in order).
pub proof fn lemma_runtime_event_consistent<M>(
    v: PeerBindingsView,
    bindings: Seq<(SocketAddr, PeerBinding)>,
    event: ShardedRuntimeEvent<M>,
)
    requires
        bindings_consistent(v),
        1 <= v.next_peer_id < u64::MAX,
        keys_distinct(bindings),
        v.by_addr == table_map(bindings),
    ensures
        bindings_consistent(after_runtime_event(v, bindings, event).0),
{
    match event {
        ShardedRuntimeEvent::Transport { shard_id, event } => match event {
            TransportEvent::PeerDisconnected { addr, .. } => {
                lemma_remove_peer_consistent(v, addr);
            },
            TransportEvent::ConnectedFrames { addr, .. } => {
                lemma_ensure_peer_consistent(v, addr, shard_id);
            },
            _ => {},
        },
        ShardedRuntimeEvent::WorkerStopped { shard_id } => {
            let l = stopped_peers(bindings, shard_id);
            lemma_stopped_peers(bindings, shard_id);
            lemma_without_peers(v.by_peer, l);
            let w = after_worker_stopped(v, l, shard_id);
            assert forall|a: SocketAddr| #[trigger] w.by_addr.contains_key(a) implies w.by_peer.contains_key(
                w.by_addr[a].peer_id,
            ) && w.by_peer[w.by_addr[a].peer_id] == a by {
                let p = v.by_addr[a].peer_id;
                assert(v.by_peer.contains_key(p));
                if exists|j: int| 0 <= j < l.len() && (#[trigger] l[j]).1 == p {
                    let j = choose|j: int| 0 <= j < l.len() && (#[trigger] l[j]).1 == p;
                    assert(v.by_addr[l[j].0].peer_id == p);
                    assert(v.by_peer.contains_key(v.by_addr[l[j].0].peer_id));
                }
            }
            assert forall|p: PeerId| #[trigger] w.by_peer.contains_key(p) implies w.by_addr.contains_key(
                w.by_peer[p],
            ) && w.by_addr[w.by_peer[p]].peer_id == p by {
                let a = v.by_peer[p];
                assert(v.by_addr.contains_key(a));
                if v.by_addr[a].shard_id == shard_id {
                    let j = choose|j: int| 0 <= j < l.len() && (#[trigger] l[j]).0 == a;
                    assert(l[j].1 == p);
                }
            }
        },
        _ => {},
    }
}

/// A remote disconnect of a bound address is reported once, for the peer
/// bound there, with the remote's own reason: a peer that stopped answering
/// as a lost connection, one that sent a notification with that
/// notification's code. The binding is dropped both ways and no peer id is
/// used up. At an unbound address nothing is reported and nothing changes.
pub proof fn lemma_remote_disconnect_reported<M>(
    v: PeerBindingsView,
    bindings: Seq<(SocketAddr, PeerBinding)>,
    shard_id: usize,
    addr: SocketAddr,
    reason: RemoteDisconnectReason,
)
    ensures
        ({
            let (w, events) = after_runtime_event(
                v,
                bindings,
                ShardedRuntimeEvent::<M>::Transport {
                    shard_id,
                    event: TransportEvent::PeerDisconnected { addr, reason },
                },
            );
            let peer_id = v.by_addr[addr].peer_id;
            &&& v.by_addr.contains_key(addr) ==> {
                &&& events.len() == 1
                &&& reason == RemoteDisconnectReason::DetectLostConnection ==> events[0]
                    == RaknetServerEvent::<M>::PeerDisconnected {
                    peer_id,
                    addr,
                    reason: PeerDisconnectReason::RemoteDetectLostConnection,
                }
                &&& reason matches RemoteDisconnectReason::DisconnectionNotification { reason_code }
                    ==> events[0] == RaknetServerEvent::<M>::PeerDisconnected {
                    peer_id,
                    addr,
                    reason: PeerDisconnectReason::RemoteDisconnectionNotification { reason_code },
                }
                &&& !w.by_addr.contains_key(addr)
                &&& !w.by_peer.contains_key(peer_id)
                &&& w.next_peer_id == v.next_peer_id
            }
            &&& !v.by_addr.contains_key(addr) ==> events.len() == 0 && w == v
        }),
{
}

/// Frames from an address are reported, in order, as packets of the peer
/// bound there, each with its payload, reliability and indices as delivered,
/// followed by one acknowledgement per acknowledged receipt, in order. An
/// address seen for the first time is bound to the next peer id (which
/// advances by one, saturating) and reported as connected first; an address
/// already bound keeps its peer id. Either way it is now served by `shard_id`.
pub proof fn lemma_connected_frames_reported<M>(
    v: PeerBindingsView,
    bindings: Seq<(SocketAddr, PeerBinding)>,
    shard_id: usize,
    addr: SocketAddr,
    frames: Vec<ConnectedFrameDelivery>,
    acked: Vec<u64>,
)
    ensures
        ({
            let (w, events) = after_runtime_event(
                v,
                bindings,
                ShardedRuntimeEvent::<M>::Transport {
                    shard_id,
                    event: TransportEvent::ConnectedFrames { addr, frames, acked_receipt_ids: acked },
                },
            );
            let is_new = !v.by_addr.contains_key(addr);
            let k: int = if is_new {
                1
            } else {
                0
            };
            let peer_id = w.by_addr[addr].peer_id;
            &&& w.by_addr.contains_key(addr)
            &&& w.by_addr[addr].shard_id == shard_id
            &&& !is_new ==> peer_id == v.by_addr[addr].peer_id && w.next_peer_id == v.next_peer_id
                && w.by_peer == v.by_peer
            &&& is_new ==> peer_id@ == v.next_peer_id && w.by_peer.contains_key(peer_id)
                && w.by_peer[peer_id] == addr && w.next_peer_id == (if v.next_peer_id < u64::MAX {
                v.next_peer_id + 1
            } else {
                v.next_peer_id as int
            })
            &&& events.len() == k + frames@.len() + acked@.len()
            &&& is_new ==> events[0] == RaknetServerEvent::<M>::PeerConnected { peer_id, addr, shard_id }
            &&& forall|i: int|
                0 <= i < frames@.len() ==> #[trigger] events[k + i] == RaknetServerEvent::<M>::Packet {
                    peer_id,
                    addr,
                    payload: frames@[i].payload,
                    reliability: frames@[i].reliability,
                    reliable_index: frames@[i].reliable_index,
                    sequence_index: frames@[i].sequence_index,
                    ordering_index: frames@[i].ordering_index,
                    ordering_channel: frames@[i].ordering_channel,
                }
            &&& forall|i: int|
                0 <= i < acked@.len() ==> #[trigger] events[k + frames@.len() + i]
                    == RaknetServerEvent::<M>::ReceiptAcked { peer_id, addr, receipt_id: acked@[i] }
        }),
{
    lemma_peer_id_of(v.next_peer_id);
    let (w, events) = after_runtime_event(
        v,
        bindings,
        ShardedRuntimeEvent::<M>::Transport {
            shard_id,
            event: TransportEvent::ConnectedFrames { addr, frames, acked_receipt_ids: acked },
        },
    );
    let is_new = !v.by_addr.contains_key(addr);
    let k: int = if is_new {
        1
    } else {
        0
    };
    let peer_id = w.by_addr[addr].peer_id;
    let connected: Seq<RaknetServerEvent<M>> = if is_new {
        seq![RaknetServerEvent::PeerConnected { peer_id, addr, shard_id }]
    } else {
        Seq::empty()
    };
    let packets = Seq::new(frames@.len(), |i: int| packet_event::<M>(peer_id, addr, frames@[i]));
    let acks = Seq::new(
        acked@.len(),
        |i: int| RaknetServerEvent::<M>::ReceiptAcked { peer_id, addr, receipt_id: acked@[i] },
    );
    assert(events == connected + packets + acks);
    assert forall|i: int| 0 <= i < frames@.len() implies #[trigger] events[k + i] == packet_event::<M>(
        peer_id,
        addr,
        frames@[i],
    ) by {
        assert(events[k + i] == packets[i]);
    }
    assert forall|i: int| 0 <= i < acked@.len() implies #[trigger] events[k + frames@.len() + i] == acks[i] by {
        assert(events[k + frames@.len() + i] == acks[i]);
    }
}

/// When a shard stops, every peer it served is reported disconnected, once,
/// with its own peer id and address and the reason that its shard stopped,
/// and unbound both ways; then the stop itself is reported. Peers of other
/// shards keep their bindings.
pub proof fn lemma_worker_stopped_reported<M>(
    v: PeerBindingsView,
    bindings: Seq<(SocketAddr, PeerBinding)>,
    shard_id: usize,
)
    requires
        keys_distinct(bindings),
        table_map(bindings) == v.by_addr,
    ensures
        ({
            let (w, events) = after_runtime_event(
                v,
                bindings,
                ShardedRuntimeEvent::<M>::WorkerStopped { shard_id },
            );
            let n = events.len() - 1;
            &&& events.len() >= 1
            &&& events[n] == RaknetServerEvent::<M>::WorkerStopped { shard_id }
            &&& forall|j: int|
                0 <= j < n ==> (#[trigger] events[j] matches RaknetServerEvent::PeerDisconnected {
                    peer_id,
                    addr,
                    reason,
                } && reason == PeerDisconnectReason::WorkerStopped { shard_id } && v.by_addr.contains_key(
                    addr,
                ) && v.by_addr[addr] == (PeerBinding { peer_id, shard_id }) && !w.by_addr.contains_key(
                    addr,
                ))
            &&& forall|a: SocketAddr|
                #[trigger] v.by_addr.contains_key(a) && v.by_addr[a].shard_id == shard_id ==> exists|
                    j: int,
                |
                    0 <= j < n && events[j] == RaknetServerEvent::<M>::PeerDisconnected {
                        peer_id: v.by_addr[a].peer_id,
                        addr: a,
                        reason: PeerDisconnectReason::WorkerStopped { shard_id },
                    }
            &&& forall|j1: int, j2: int|
                0 <= j1 < j2 < n ==> #[trigger] events[j1] != #[trigger] events[j2]
            &&& forall|a: SocketAddr|
                #[trigger] w.by_addr.contains_key(a) <==> (v.by_addr.contains_key(a) && v.by_addr[a].shard_id
                    != shard_id)
            &&& forall|a: SocketAddr| #[trigger] w.by_addr.contains_key(a) ==> w.by_addr[a] == v.by_addr[a]
            &&& forall|a: SocketAddr|
                #[trigger] v.by_addr.contains_key(a) && v.by_addr[a].shard_id == shard_id
                    ==> !w.by_peer.contains_key(v.by_addr[a].peer_id)
        }),
{
    let l = stopped_peers(bindings, shard_id);
    lemma_stopped_peers(bindings, shard_id);
    lemma_without_peers(v.by_peer, l);
    let (w, events) = after_runtime_event(v, bindings, ShardedRuntimeEvent::<M>::WorkerStopped { shard_id });
    let n = events.len() - 1;
    assert(n == l.len());
    assert forall|j: int| 0 <= j < n implies #[trigger] events[j] == RaknetServerEvent::<M>::PeerDisconnected {
        peer_id: l[j].1,
        addr: l[j].0,
        reason: PeerDisconnectReason::WorkerStopped { shard_id },
    } by {}
    assert forall|a: SocketAddr| #[trigger] v.by_addr.contains_key(a) && v.by_addr[a].shard_id == shard_id
        implies exists|j: int|
        0 <= j < n && events[j] == RaknetServerEvent::<M>::PeerDisconnected {
            peer_id: v.by_addr[a].peer_id,
            addr: a,
            reason: PeerDisconnectReason::WorkerStopped { shard_id },
        } by {
        let j = choose|j: int| 0 <= j < l.len() && (#[trigger] l[j]).0 == a;
        assert(events[j] == RaknetServerEvent::<M>::PeerDisconnected {
            peer_id: l[j].1,
            addr: l[j].0,
            reason: PeerDisconnectReason::WorkerStopped { shard_id },
        });
    }
    assert forall|j1: int, j2: int| 0 <= j1 < j2 < n implies #[trigger] events[j1] != #[trigger] events[j2] by {
        assert(l[j1].0 != l[j2].0);
    }
    assert forall|a: SocketAddr| #[trigger] v.by_addr.contains_key(a) && v.by_addr[a].shard_id == shard_id
        implies !w.by_peer.contains_key(v.by_addr[a].peer_id) by {
        let j = choose|j: int| 0 <= j < l.len() && (#[trigger] l[j]).0 == a;
        assert(l[j].1 == v.by_addr[a].peer_id);
    }
}

} // verus!
