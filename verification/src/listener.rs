//! A listener: its configuration before it starts, and the registry of the
//! connections its worker serves.
use vstd::prelude::*;

use crate::connection::{ConnectionCloseReason, ConnectionInbound};
use crate::error::ServerError;
use crate::net::SocketAddr;
use crate::protocol::reliability::Reliability;
use crate::protocol::sequence24::Sequence24;
use crate::server::{PeerDisconnectReason, PeerId, RaknetServerEvent};
use crate::table::{keys_distinct, table_find, table_map, table_set, table_take, lemma_table_len};
use crate::transport::config::{ShardedRuntimeConfig, TransportConfig};

verus! {

pub const DEFAULT_ACCEPT_QUEUE_CAPACITY: usize = 512;

pub const DEFAULT_INBOUND_QUEUE_CAPACITY: usize = 256;

pub const DEFAULT_COMMAND_QUEUE_CAPACITY: usize = 2048;

/// At least one.
pub open spec fn at_least_one(n: usize) -> usize {
    if n == 0 {
        1
    } else {
        n
    }
}

fn max_one(n: usize) -> (r: usize)
    ensures
        r == at_least_one(n),
{
    if n == 0 {
        1
    } else {
        n
    }
}

/// What a listener reports of itself.
#[derive(Debug, Clone, PartialEq, Eq)]
pub struct ListenerMetadata {
    bind_addr: SocketAddr,
    started: bool,
    shard_count: usize,
    advertisement: String,
}

impl ListenerMetadata {
    pub closed spec fn spec_bind_addr(&self) -> SocketAddr {
        self.bind_addr
    }

    pub closed spec fn spec_started(&self) -> bool {
        self.started
    }

    pub closed spec fn spec_shard_count(&self) -> usize {
        self.shard_count
    }

    pub closed spec fn spec_advertisement(&self) -> Seq<char> {
        self.advertisement@
    }

    pub fn bind_addr(&self) -> (a: SocketAddr)
        ensures
            a == self.spec_bind_addr(),
    {
        self.bind_addr
    }

    pub fn started(&self) -> (b: bool)
        ensures
            b == self.spec_started(),
    {
        self.started
    }

    pub fn shard_count(&self) -> (n: usize)
        ensures
            n == self.spec_shard_count(),
    {
        self.shard_count
    }

    pub fn advertisement(&self) -> (s: &str)
        ensures
            s@ == self.spec_advertisement(),
    {
        self.advertisement.as_str()
    }
}

/// A listener: where it binds, the configurations it starts the server
/// with, the capacities of its queues, and, once started, the handle `H` of
/// its running worker.
pub struct Listener<H> {
    bind_addr: SocketAddr,
    transport_config: TransportConfig,
    runtime_config: ShardedRuntimeConfig,
    accept_queue_capacity: usize,
    inbound_queue_capacity: usize,
    command_queue_capacity: usize,
    runtime: Option<H>,
}

/// The queue capacities a started listener uses.
#[derive(Debug, Clone, Copy, PartialEq, Eq, Structural)]
pub struct QueueCapacities {
    pub accept: usize,
    pub inbound: usize,
    pub command: usize,
}

impl<H> Listener<H> {
    pub closed spec fn spec_bind_addr(&self) -> SocketAddr {
        self.bind_addr
    }

    pub closed spec fn spec_advertisement(&self) -> Seq<char> {
        self.transport_config.advertisement@
    }

    pub closed spec fn spec_transport_bind_addr(&self) -> SocketAddr {
        self.transport_config.bind_addr
    }

    pub closed spec fn spec_shard_count(&self) -> usize {
        self.runtime_config.shard_count
    }

    pub closed spec fn spec_capacities(&self) -> QueueCapacities {
        QueueCapacities {
            accept: self.accept_queue_capacity,
            inbound: self.inbound_queue_capacity,
            command: self.command_queue_capacity,
        }
    }

    pub closed spec fn spec_runtime(&self) -> Option<H> {
        self.runtime
    }

    /// A listener for `bind_addr`, not started, with the default
    /// configurations and queue capacities.
    pub fn bind(bind_addr: SocketAddr) -> (r: Result<Listener<H>, ServerError>)
        ensures
            r matches Ok(l) && l.spec_bind_addr() == bind_addr && l.spec_transport_bind_addr()
                == bind_addr && l.spec_advertisement() == Seq::<char>::empty()
                && l.spec_shard_count() == 1 && l.spec_capacities() == (QueueCapacities {
                accept: DEFAULT_ACCEPT_QUEUE_CAPACITY,
                inbound: DEFAULT_INBOUND_QUEUE_CAPACITY,
                command: DEFAULT_COMMAND_QUEUE_CAPACITY,
            }) && l.spec_runtime() is None,
    {
        let mut transport_config = TransportConfig::default();
        transport_config.bind_addr = bind_addr;
        Ok(
            Listener {
                bind_addr,
                transport_config,
                runtime_config: ShardedRuntimeConfig::default(),
                accept_queue_capacity: DEFAULT_ACCEPT_QUEUE_CAPACITY,
                inbound_queue_capacity: DEFAULT_INBOUND_QUEUE_CAPACITY,
                command_queue_capacity: DEFAULT_COMMAND_QUEUE_CAPACITY,
                runtime: None,
            },
        )
    }

    /// Sets what the listener advertises in unconnected pongs.
    pub fn set_pong_data(&mut self, data: String)
        ensures
            final(self).spec_advertisement() == data@,
            final(self).spec_bind_addr() == old(self).spec_bind_addr(),
            final(self).spec_transport_bind_addr() == old(self).spec_transport_bind_addr(),
            final(self).spec_shard_count() == old(self).spec_shard_count(),
            final(self).spec_capacities() == old(self).spec_capacities(),
            final(self).spec_runtime() == old(self).spec_runtime(),
    {
        self.transport_config.advertisement = data;
    }

    pub fn pong_data(&self) -> (s: &str)
        ensures
            s@ == self.spec_advertisement(),
    {
        self.transport_config.advertisement.as_str()
    }

    /// Sets the capacity of the queue of accepted connections (at least one).
    pub fn set_accept_queue_capacity(&mut self, capacity: usize)
        ensures
            final(self).spec_capacities() == (QueueCapacities {
                accept: at_least_one(capacity),
                ..old(self).spec_capacities()
            }),
            final(self).spec_bind_addr() == old(self).spec_bind_addr(),
            final(self).spec_transport_bind_addr() == old(self).spec_transport_bind_addr(),
            final(self).spec_advertisement() == old(self).spec_advertisement(),
            final(self).spec_shard_count() == old(self).spec_shard_count(),
            final(self).spec_runtime() == old(self).spec_runtime(),
    {
        self.accept_queue_capacity = max_one(capacity);
    }

    /// Sets the capacity of each connection's inbound queue (at least one).
    pub fn set_inbound_queue_capacity(&mut self, capacity: usize)
        ensures
            final(self).spec_capacities() == (QueueCapacities {
                inbound: at_least_one(capacity),
                ..old(self).spec_capacities()
            }),
            final(self).spec_bind_addr() == old(self).spec_bind_addr(),
            final(self).spec_transport_bind_addr() == old(self).spec_transport_bind_addr(),
            final(self).spec_advertisement() == old(self).spec_advertisement(),
            final(self).spec_shard_count() == old(self).spec_shard_count(),
            final(self).spec_runtime() == old(self).spec_runtime(),
    {
        self.inbound_queue_capacity = max_one(capacity);
    }

    /// Sets the capacity of the worker's command queue (at least one).
    pub fn set_command_queue_capacity(&mut self, capacity: usize)
        ensures
            final(self).spec_capacities() == (QueueCapacities {
                command: at_least_one(capacity),
                ..old(self).spec_capacities()
            }),
            final(self).spec_bind_addr() == old(self).spec_bind_addr(),
            final(self).spec_transport_bind_addr() == old(self).spec_transport_bind_addr(),
            final(self).spec_advertisement() == old(self).spec_advertisement(),
            final(self).spec_shard_count() == old(self).spec_shard_count(),
            final(self).spec_runtime() == old(self).spec_runtime(),
    {
        self.command_queue_capacity = max_one(capacity);
    }

    /// Sets the number of transport shards (at least one).
    pub fn set_shard_count(&mut self, shard_count: usize)
        ensures
            final(self).spec_shard_count() == at_least_one(shard_count),
            final(self).spec_bind_addr() == old(self).spec_bind_addr(),
            final(self).spec_transport_bind_addr() == old(self).spec_transport_bind_addr(),
            final(self).spec_advertisement() == old(self).spec_advertisement(),
            final(self).spec_capacities() == old(self).spec_capacities(),
            final(self).spec_runtime() == old(self).spec_runtime(),
    {
        self.runtime_config.shard_count = max_one(shard_count);
    }

    pub fn bind_addr(&self) -> (a: SocketAddr)
        ensures
            a == self.spec_bind_addr(),
    {
        self.bind_addr
    }

    /// Where it binds, whether it runs, its shard count (at least one) and
    /// its advertisement.
    pub fn metadata(&self) -> (m: ListenerMetadata)
        ensures
            m.spec_bind_addr() == self.spec_bind_addr(),
            m.spec_started() == self.spec_runtime() is Some,
            m.spec_shard_count() == at_least_one(self.spec_shard_count()),
            m.spec_advertisement() == self.spec_advertisement(),
    {
        ListenerMetadata {
            bind_addr: self.bind_addr,
            started: self.runtime.is_some(),
            shard_count: max_one(self.runtime_config.shard_count),
            advertisement: self.transport_config.advertisement.clone(),
        }
    }

    pub fn is_started(&self) -> (b: bool)
        ensures
            b == self.spec_runtime() is Some,
    {
        self.runtime.is_some()
    }

    /// What starting needs: the listener must not be running, and the runtime
    /// configuration must be valid. Gives the configurations to start the
    /// server with (the transport bound to the listener's address) and the
    /// queue capacities (each at least one).
    pub fn start_plan(&self) -> (r: Result<(TransportConfig, ShardedRuntimeConfig, QueueCapacities), ServerError>)
        ensures
            self.spec_runtime() is Some ==> r == Err::<(TransportConfig, ShardedRuntimeConfig, QueueCapacities), ServerError>(ServerError::AlreadyStarted),
            self.spec_runtime() is None && self.spec_shard_count() == 0 ==> (r matches Err(
                ServerError::InvalidConfig(e),
            ) && e.config == "ShardedRuntimeConfig" && e.field == "shard_count" && e.message
                == "must be >= 1"),
            self.spec_runtime() is None && self.spec_shard_count() >= 1 ==> (r matches Ok(
                (t, c, q),
            ) && t.bind_addr == self.spec_bind_addr() && t.advertisement@
                == self.spec_advertisement() && c.shard_count == self.spec_shard_count() && q == (
            QueueCapacities {
                accept: at_least_one(self.spec_capacities().accept),
                inbound: at_least_one(self.spec_capacities().inbound),
                command: at_least_one(self.spec_capacities().command),
            })),
    {
        if self.runtime.is_some() {
            return Err(ServerError::AlreadyStarted);
        }
        let mut transport_config = self.transport_config.clone();
        transport_config.bind_addr = self.bind_addr;
        transport_config.advertisement = self.transport_config.advertisement.clone();
        match self.runtime_config.validate() {
            Ok(()) => {},
            Err(e) => return Err(ServerError::InvalidConfig(e)),
        }
        Ok(
            (
                transport_config,
                self.runtime_config,
                QueueCapacities {
                    accept: max_one(self.accept_queue_capacity),
                    inbound: max_one(self.inbound_queue_capacity),
                    command: max_one(self.command_queue_capacity),
                },
            ),
        )
    }

    /// Records the handle of the worker that now runs.
    pub fn set_runtime(&mut self, runtime: H)
        ensures
            final(self).spec_runtime() == Some(runtime),
            final(self).spec_bind_addr() == old(self).spec_bind_addr(),
            final(self).spec_transport_bind_addr() == old(self).spec_transport_bind_addr(),
            final(self).spec_advertisement() == old(self).spec_advertisement(),
            final(self).spec_shard_count() == old(self).spec_shard_count(),
            final(self).spec_capacities() == old(self).spec_capacities(),
    {
        self.runtime = Some(runtime);
    }

    /// Takes the running worker's handle out, leaving the listener stopped.
    pub fn take_runtime(&mut self) -> (r: Option<H>)
        ensures
            r == old(self).spec_runtime(),
            final(self).spec_runtime() is None,
            final(self).spec_bind_addr() == old(self).spec_bind_addr(),
            final(self).spec_transport_bind_addr() == old(self).spec_transport_bind_addr(),
            final(self).spec_advertisement() == old(self).spec_advertisement(),
            final(self).spec_shard_count() == old(self).spec_shard_count(),
            final(self).spec_capacities() == old(self).spec_capacities(),
    {
        self.runtime.take()
    }

    /// The running worker's handle, to accept from; an error if not started.
    pub fn runtime_mut(&mut self) -> (r: Result<&mut H, ServerError>)
        ensures
            old(self).spec_runtime() is None ==> r matches Err(ServerError::NotStarted),
            old(self).spec_runtime() matches Some(h) ==> (r matches Ok(rh) && *rh == h
                && final(self).spec_runtime() == Some(*final(rh))),
            final(self).spec_bind_addr() == old(self).spec_bind_addr(),
            final(self).spec_transport_bind_addr() == old(self).spec_transport_bind_addr(),
            final(self).spec_advertisement() == old(self).spec_advertisement(),
            final(self).spec_shard_count() == old(self).spec_shard_count(),
            final(self).spec_capacities() == old(self).spec_capacities(),
    {
        match &mut self.runtime {
            Some(h) => Ok(h),
            None => Err(ServerError::NotStarted),
        }
    }
}

/// A connection the worker serves: the peer's address and the handle `T`
/// through which its connection is reached.
pub struct PeerRuntime<T> {
    pub addr: SocketAddr,
    pub handle: T,
}

/// The connections a listener's worker serves, by peer id, and the peer id
/// of each address.
pub struct ListenerPeers<T> {
    peers: Vec<(PeerId, PeerRuntime<T>)>,
    peer_ids_by_addr: Vec<(SocketAddr, PeerId)>,
}

/// The worker's registry: each peer id's connection, and each address's peer id.
#[verifier::ext_equal]
pub struct ListenerPeersView<T> {
    pub peers: Map<PeerId, PeerRuntime<T>>,
    pub ids_by_addr: Map<SocketAddr, PeerId>,
}

/// The registry after the connection of `peer_id` is dropped: its entry, and
/// its address's peer id, go.
pub open spec fn after_remove<T>(v: ListenerPeersView<T>, peer_id: PeerId) -> (
    ListenerPeersView<T>,
    Option<PeerRuntime<T>>,
) {
    if v.peers.contains_key(peer_id) {
        let e = v.peers[peer_id];
        (
            ListenerPeersView { peers: v.peers.remove(peer_id), ids_by_addr: v.ids_by_addr.remove(e.addr) },
            Some(e),
        )
    } else {
        (v, None)
    }
}

/// The registry after `peer_id` connected from `addr` with the connection
/// reached through `handle`: an earlier connection of that peer is dropped
/// (and given back), and the new one is entered both ways.
pub open spec fn after_register<T>(
    v: ListenerPeersView<T>,
    peer_id: PeerId,
    addr: SocketAddr,
    handle: T,
) -> (ListenerPeersView<T>, Option<PeerRuntime<T>>) {
    let (w, replaced) = after_remove(v, peer_id);
    (
        ListenerPeersView {
            peers: w.peers.insert(peer_id, PeerRuntime { addr, handle }),
            ids_by_addr: w.ids_by_addr.insert(addr, peer_id),
        },
        replaced,
    )
}

/// Each connection's address names its peer id, and each address's peer id
/// has a connection at that address.
pub open spec fn registry_consistent<T>(v: ListenerPeersView<T>) -> bool {
    &&& forall|p: PeerId| #[trigger] v.peers.contains_key(p) ==> v.ids_by_addr.contains_key(
        v.peers[p].addr,
    ) && v.ids_by_addr[v.peers[p].addr] == p
    &&& forall|a: SocketAddr| #[trigger] v.ids_by_addr.contains_key(a) ==> v.peers.contains_key(
        v.ids_by_addr[a],
    ) && v.peers[v.ids_by_addr[a]].addr == a
}

impl<T> ListenerPeers<T> {
    pub closed spec fn view(&self) -> ListenerPeersView<T> {
        ListenerPeersView {
            peers: table_map(self.peers@),
            ids_by_addr: table_map(self.peer_ids_by_addr@),
        }
    }

    /// The connections in the order they were entered.
    pub closed spec fn entries(&self) -> Seq<(PeerId, PeerRuntime<T>)> {
        self.peers@
    }

    pub closed spec fn wf(&self) -> bool {
        &&& keys_distinct(self.peers@)
        &&& keys_distinct(self.peer_ids_by_addr@)
    }

    pub proof fn lemma_entries(&self)
        requires
            self.wf(),
        ensures
            self.view().peers == table_map(self.entries()),
            keys_distinct(self.entries()),
            self.view().peers.dom().finite(),
            self.view().peers.dom().len() == self.entries().len(),
    {
        lemma_table_len(self.peers@);
    }

    /// No connections.
    pub fn new() -> (r: ListenerPeers<T>)
        ensures
            r.wf(),
            r.view().peers == Map::<PeerId, PeerRuntime<T>>::empty(),
            r.view().ids_by_addr == Map::<SocketAddr, PeerId>::empty(),
    {
        let r = ListenerPeers { peers: Vec::new(), peer_ids_by_addr: Vec::new() };
        assert(r.view().peers =~= Map::empty());
        assert(r.view().ids_by_addr =~= Map::empty());
        r
    }

    /// Drops the connection of `peer_id`, giving it back.
    pub fn remove_peer(&mut self, peer_id: PeerId) -> (r: Option<PeerRuntime<T>>)
        requires
            old(self).wf(),
        ensures
            final(self).wf(),
            (final(self).view(), r) == after_remove(old(self).view(), peer_id),
    {
        let ghost v0 = self.view();
        match table_take(&mut self.peers, &peer_id) {
            Some(entry) => {
                let _ = table_take(&mut self.peer_ids_by_addr, &entry.addr);
                assert(self.view() =~= after_remove(v0, peer_id).0);
                Some(entry)
            },
            None => {
                assert(self.view() =~= v0);
                None
            },
        }
    }

    /// Enters the connection of `peer_id` from `addr`, reached through
    /// `handle`; gives back the connection it replaces, if any.
    pub fn register(&mut self, peer_id: PeerId, addr: SocketAddr, handle: T) -> (r: Option<PeerRuntime<T>>)
        requires
            old(self).wf(),
        ensures
            final(self).wf(),
            (final(self).view(), r) == after_register(old(self).view(), peer_id, addr, handle),
    {
        let replaced = self.remove_peer(peer_id);
        table_set(&mut self.peers, peer_id, PeerRuntime { addr, handle });
        table_set(&mut self.peer_ids_by_addr, addr, peer_id);
        replaced
    }

    pub fn contains(&self, peer_id: PeerId) -> (b: bool)
        requires
            self.wf(),
        ensures
            b == self.view().peers.contains_key(peer_id),
    {
        table_find(&self.peers, &peer_id).is_some()
    }

    /// The connection of `peer_id`, if there is one.
    pub fn get(&self, peer_id: PeerId) -> (r: Option<&PeerRuntime<T>>)
        requires
            self.wf(),
        ensures
            r == if self.view().peers.contains_key(peer_id) {
                Some(&self.view().peers[peer_id])
            } else {
                None::<&PeerRuntime<T>>
            },
    {
        match table_find(&self.peers, &peer_id) {
            Some(i) => Some(&self.peers[i].1),
            None => None,
        }
    }

    /// The peer id entered for `addr`, if any.
    pub fn peer_id_for_addr(&self, addr: SocketAddr) -> (r: Option<PeerId>)
        requires
            self.wf(),
        ensures
            r == if self.view().ids_by_addr.contains_key(addr) {
                Some(self.view().ids_by_addr[addr])
            } else {
                None::<PeerId>
            },
    {
        match table_find(&self.peer_ids_by_addr, &addr) {
            Some(i) => Some(self.peer_ids_by_addr[i].1),
            None => None,
        }
    }

    /// The peer ids of every connection, each once, in the order entered.
    pub fn peer_ids(&self) -> (r: Vec<PeerId>)
        requires
            self.wf(),
        ensures
            r@ == self.entries().map_values(|e: (PeerId, PeerRuntime<T>)| e.0),
    {
        let mut r: Vec<PeerId> = Vec::new();
        let mut i: usize = 0;
        while i < self.peers.len()
            invariant
                i <= self.peers@.len(),
                r@ == self.peers@.take(i as int).map_values(|e: (PeerId, PeerRuntime<T>)| e.0),
            decreases self.peers@.len() - i,
        {
            r.push(self.peers[i].0);
            i = i + 1;
            assert(r@ =~= self.peers@.take(i as int).map_values(|e: (PeerId, PeerRuntime<T>)| e.0));
        }
        assert(self.peers@.take(i as int) =~= self.peers@);
        r
    }

    /// Drops every connection, giving them back in the order entered.
    pub fn close_all_peers(&mut self) -> (r: Vec<PeerRuntime<T>>)
        requires
            old(self).wf(),
        ensures
            final(self).wf(),
            final(self).view().peers == Map::<PeerId, PeerRuntime<T>>::empty(),
            final(self).view().ids_by_addr == Map::<SocketAddr, PeerId>::empty(),
            r@ == old(self).entries().map_values(|e: (PeerId, PeerRuntime<T>)| e.1),
    {
        self.peer_ids_by_addr.clear();
        let mut drained: Vec<(PeerId, PeerRuntime<T>)> = Vec::new();
        std::mem::swap(&mut drained, &mut self.peers);
        let ghost all = drained@;
        let mut r: Vec<PeerRuntime<T>> = Vec::new();
        let n = drained.len();
        let mut k: usize = 0;
        while k < n
            invariant
                n == all.len(),
                k <= n,
                drained@ == all.subrange(k as int, n as int),
                r@ == all.take(k as int).map_values(|e: (PeerId, PeerRuntime<T>)| e.1),
            decreases n - k,
        {
            let (_, entry) = drained.remove(0);
            r.push(entry);
            k = k + 1;
            assert(drained@ =~= all.subrange(k as int, n as int));
            assert(r@ =~= all.take(k as int).map_values(|e: (PeerId, PeerRuntime<T>)| e.1));
        }
        assert(all.take(k as int) =~= all);
        assert(self.view().peers =~= Map::empty());
        assert(self.view().ids_by_addr =~= Map::empty());
        r
    }
}

/// Dropping a connection keeps the registry consistent.
pub proof fn lemma_remove_consistent<T>(v: ListenerPeersView<T>, peer_id: PeerId)
    requires
        registry_consistent(v),
    ensures
        registry_consistent(after_remove(v, peer_id).0),
        !after_remove(v, peer_id).0.peers.contains_key(peer_id),
{
    let w = after_remove(v, peer_id).0;
    if v.peers.contains_key(peer_id) {
        assert forall|p: PeerId| #[trigger] w.peers.contains_key(p) implies w.ids_by_addr.contains_key(
            w.peers[p].addr,
        ) && w.ids_by_addr[w.peers[p].addr] == p by {
            assert(v.ids_by_addr.contains_key(v.peers[p].addr));
        }
        assert forall|a: SocketAddr| #[trigger] w.ids_by_addr.contains_key(a) implies w.peers.contains_key(
            w.ids_by_addr[a],
        ) && w.peers[w.ids_by_addr[a]].addr == a by {
            assert(v.peers.contains_key(v.ids_by_addr[a]));
        }
    }
}

/// Entering a connection keeps the registry consistent when no other peer
/// is entered for its address; afterwards the address leads to the new
/// connection and back.
pub proof fn lemma_register_consistent<T>(
    v: ListenerPeersView<T>,
    peer_id: PeerId,
    addr: SocketAddr,
    handle: T,
)
    requires
        registry_consistent(v),
        v.ids_by_addr.contains_key(addr) ==> v.ids_by_addr[addr] == peer_id,
    ensures
        registry_consistent(after_register(v, peer_id, addr, handle).0),
        after_register(v, peer_id, addr, handle).0.ids_by_addr[addr] == peer_id,
        after_register(v, peer_id, addr, handle).0.peers[peer_id] == (PeerRuntime { addr, handle }),
{
    lemma_remove_consistent(v, peer_id);
    let w = after_remove(v, peer_id).0;
    let u = after_register(v, peer_id, addr, handle).0;
    assert(!w.ids_by_addr.contains_key(addr)) by {
        if w.ids_by_addr.contains_key(addr) {
            assert(w.peers.contains_key(w.ids_by_addr[addr]));
        }
    }
    assert forall|p: PeerId| #[trigger] u.peers.contains_key(p) implies u.ids_by_addr.contains_key(
        u.peers[p].addr,
    ) && u.ids_by_addr[u.peers[p].addr] == p by {
        if p != peer_id {
            assert(w.ids_by_addr.contains_key(w.peers[p].addr));
        }
    }
    assert forall|a: SocketAddr| #[trigger] u.ids_by_addr.contains_key(a) implies u.peers.contains_key(
        u.ids_by_addr[a],
    ) && u.peers[u.ids_by_addr[a]].addr == a by {
        if a != addr {
            assert(w.peers.contains_key(w.ids_by_addr[a]));
        }
    }
}

/// The reason a connection is closed with when the worker could not hand it
/// a payload: a full queue means the application fell behind; a closed queue
/// means the listener is going away.
pub fn close_reason_for_rejected_delivery(queue_full: bool) -> (r: ConnectionCloseReason)
    ensures
        r == if queue_full {
            ConnectionCloseReason::InboundBackpressure
        } else {
            ConnectionCloseReason::ListenerStopped
        },
{
    if queue_full {
        ConnectionCloseReason::InboundBackpressure
    } else {
        ConnectionCloseReason::ListenerStopped
    }
}

/// What the listener's worker takes in: a command from a connection, the
/// end of the commands or of the server's events, a new connection (with the
/// handle the worker reaches it through), another server event, or the
/// failure to hand a connection or a payload over.
pub enum WorkerInput<T, M> {
    /// A connection asks to send a payload.
    Send { peer_id: PeerId },
    /// A connection asks to be disconnected (waiting for the answer or not).
    Disconnect { peer_id: PeerId },
    /// The listener is asked to stop.
    Shutdown,
    /// No connection or listener can send commands any more.
    CommandsClosed,
    /// The server reports no more events.
    ServerStopped,
    /// The server reported a connected peer; `handle` reaches its connection.
    Connected { peer_id: PeerId, addr: SocketAddr, handle: T },
    /// Any other server event. (A connected peer is taken in through
    /// `Connected`, which brings the handle; as an event it changes nothing.)
    Event(RaknetServerEvent<M>),
    /// A new connection could not be queued for acceptance.
    AcceptRejected { peer_id: PeerId, queue_full: bool },
    /// A payload or message could not be queued for a connection.
    DeliveryRejected { peer_id: PeerId, queue_full: bool },
}

/// What the worker does, in order.
pub enum WorkerAction<T> {
    /// Send the connection's payload through the server.
    Forward { peer_id: PeerId },
    /// Answer the command that its peer is not found.
    ReplyNotFound,
    /// Ask the server to disconnect the peer (its result answers a
    /// disconnect command).
    DisconnectPeer { peer_id: PeerId },
    /// Mark the connection closed for `reason` and tell it so.
    ClosePeer { entry: PeerRuntime<T>, reason: ConnectionCloseReason },
    /// Queue the new connection for acceptance.
    OfferConnection { peer_id: PeerId },
    /// Queue `inbound` for the connection of the peer; when it cannot be
    /// queued, report that back as a rejected delivery if `report_rejection`.
    Deliver { peer_id: PeerId, inbound: ConnectionInbound, report_rejection: bool },
    /// Shut the server down (its result answers a shutdown command).
    ShutdownServer,
    /// Leave the worker loop.
    Stop,
}

/// A registry with no connections.
pub open spec fn empty_registry<T>() -> ListenerPeersView<T> {
    ListenerPeersView { peers: Map::empty(), ids_by_addr: Map::empty() }
}

/// Closing each connection of `entries`, in order, for `reason`.
pub open spec fn close_actions<T>(entries: Seq<(PeerId, PeerRuntime<T>)>, reason: ConnectionCloseReason) -> Seq<
    WorkerAction<T>,
> {
    Seq::new(entries.len(), |i: int| WorkerAction::ClosePeer { entry: entries[i].1, reason })
}

/// Asking the server to disconnect each peer of `entries`, in order.
pub open spec fn disconnect_actions<T>(entries: Seq<(PeerId, PeerRuntime<T>)>) -> Seq<WorkerAction<T>> {
    Seq::new(entries.len(), |i: int| WorkerAction::DisconnectPeer { peer_id: entries[i].0 })
}

/// Disconnecting one peer: the server is asked to disconnect it, then its
/// connection, if the registry holds one, is dropped and closed for `reason`.
pub open spec fn disconnect_peer_next<T>(
    v: ListenerPeersView<T>,
    peer_id: PeerId,
    reason: ConnectionCloseReason,
) -> (ListenerPeersView<T>, Seq<WorkerAction<T>>) {
    let (w, removed) = after_remove(v, peer_id);
    (
        w,
        seq![WorkerAction::DisconnectPeer { peer_id }] + match removed {
            Some(entry) => seq![WorkerAction::ClosePeer { entry, reason }],
            None => Seq::empty(),
        },
    )
}

/// The registry after one input, and what the worker does for it (`entries`:
/// the registry's connections in the order entered).
pub open spec fn listener_next<T, M>(
    v: ListenerPeersView<T>,
    entries: Seq<(PeerId, PeerRuntime<T>)>,
    input: WorkerInput<T, M>,
) -> (ListenerPeersView<T>, Seq<WorkerAction<T>>) {
    match input {
        WorkerInput::Send { peer_id } => (
            v,
            if v.peers.contains_key(peer_id) {
                seq![WorkerAction::Forward { peer_id }]
            } else {
                seq![WorkerAction::ReplyNotFound]
            },
        ),
        WorkerInput::Disconnect { peer_id } => disconnect_peer_next(
            v,
            peer_id,
            ConnectionCloseReason::RequestedByLocal,
        ),
        WorkerInput::Shutdown => (
            empty_registry(),
            disconnect_actions(entries) + close_actions(entries, ConnectionCloseReason::ListenerStopped)
                + seq![WorkerAction::ShutdownServer, WorkerAction::Stop],
        ),
        WorkerInput::CommandsClosed => (
            empty_registry(),
            close_actions(entries, ConnectionCloseReason::ListenerStopped) + seq![
                WorkerAction::ShutdownServer,
                WorkerAction::Stop,
            ],
        ),
        WorkerInput::ServerStopped => (
            empty_registry(),
            close_actions(entries, ConnectionCloseReason::ListenerStopped).push(WorkerAction::Stop),
        ),
        WorkerInput::Connected { peer_id, addr, handle } => {
            let (w, replaced) = after_register(v, peer_id, addr, handle);
            (
                w,
                match replaced {
                    Some(entry) => seq![
                        WorkerAction::ClosePeer {
                            entry,
                            reason: ConnectionCloseReason::RequestedByLocal,
                        },
                    ],
                    None => Seq::empty(),
                }.push(WorkerAction::OfferConnection { peer_id }),
            )
        },
        WorkerInput::Event(event) => match event {
            RaknetServerEvent::PeerDisconnected { peer_id, reason, .. } => {
                let (w, removed) = after_remove(v, peer_id);
                (
                    w,
                    match removed {
                        Some(entry) => seq![
                            WorkerAction::ClosePeer {
                                entry,
                                reason: ConnectionCloseReason::PeerDisconnected(reason),
                            },
                        ],
                        None => Seq::empty(),
                    },
                )
            },
            RaknetServerEvent::Packet { peer_id, payload, .. } => (
                v,
                if v.peers.contains_key(peer_id) {
                    seq![
                        WorkerAction::Deliver {
                            peer_id,
                            inbound: ConnectionInbound::Packet(payload),
                            report_rejection: true,
                        },
                    ]
                } else {
                    Seq::empty()
                },
            ),
            RaknetServerEvent::DecodeError { addr, error } => (
                v,
                if v.ids_by_addr.contains_key(addr) && v.peers.contains_key(v.ids_by_addr[addr]) {
                    seq![
                        WorkerAction::Deliver {
                            peer_id: v.ids_by_addr[addr],
                            inbound: ConnectionInbound::DecodeError(error),
                            report_rejection: false,
                        },
                    ]
                } else {
                    Seq::empty()
                },
            ),
            _ => (v, Seq::empty()),
        },
        WorkerInput::AcceptRejected { peer_id, queue_full } => if queue_full {
            disconnect_peer_next(v, peer_id, ConnectionCloseReason::InboundBackpressure)
        } else {
            (
                empty_registry(),
                seq![WorkerAction::DisconnectPeer { peer_id }] + close_actions(
                    entries,
                    ConnectionCloseReason::ListenerStopped,
                ) + seq![WorkerAction::ShutdownServer, WorkerAction::Stop],
            )
        },
        WorkerInput::DeliveryRejected { peer_id, queue_full } => disconnect_peer_next(
            v,
            peer_id,
            if queue_full {
                ConnectionCloseReason::InboundBackpressure
            } else {
                ConnectionCloseReason::ListenerStopped
            },
        ),
    }
}

/// Appends the closing of each connection of `closed`, in order, for `reason`.
fn push_closes<T>(actions: &mut Vec<WorkerAction<T>>, closed: Vec<PeerRuntime<T>>, reason: &ConnectionCloseReason)
    ensures
        final(actions)@ == old(actions)@ + Seq::new(
            closed@.len(),
            |i: int| WorkerAction::ClosePeer { entry: closed@[i], reason: *reason },
        ),
{
    let ghost start = actions@;
    let ghost all = closed@;
    let mut closed = closed;
    let n = closed.len();
    let mut k: usize = 0;
    while k < n
        invariant
            n == all.len(),
            k <= n,
            closed@ == all.subrange(k as int, n as int),
            actions@ == start + Seq::new(
                k as nat,
                |i: int| WorkerAction::ClosePeer { entry: all[i], reason: *reason },
            ),
        decreases n - k,
    {
        let entry = closed.remove(0);
        actions.push(WorkerAction::ClosePeer { entry, reason: reason.duplicate() });
        k = k + 1;
        assert(closed@ =~= all.subrange(k as int, n as int));
        assert(actions@ =~= start + Seq::new(
            k as nat,
            |i: int| WorkerAction::ClosePeer { entry: all[i], reason: *reason },
        ));
    }
}

/// Drops every connection, appending their closing for `reason`.
fn close_everything<T>(
    peers: &mut ListenerPeers<T>,
    actions: &mut Vec<WorkerAction<T>>,
    reason: ConnectionCloseReason,
)
    requires
        old(peers).wf(),
    ensures
        final(peers).wf(),
        final(peers).view() == empty_registry::<T>(),
        final(actions)@ == old(actions)@ + close_actions(old(peers).entries(), reason),
{
    let ghost entries = peers.entries();
    let closed = peers.close_all_peers();
    push_closes(actions, closed, &reason);
    assert(actions@ =~= old(actions)@ + close_actions(entries, reason));
    assert(peers.view() =~= empty_registry::<T>());
}

/// Disconnects one peer: the server is asked to, and its connection, if any,
/// is dropped and closed for `reason`.
fn disconnect_peer_step<T>(
    peers: &mut ListenerPeers<T>,
    actions: &mut Vec<WorkerAction<T>>,
    peer_id: PeerId,
    reason: ConnectionCloseReason,
)
    requires
        old(peers).wf(),
    ensures
        final(peers).wf(),
        (final(peers).view(), final(actions)@) == ({
            let (w, acts) = disconnect_peer_next(old(peers).view(), peer_id, reason);
            (w, old(actions)@ + acts)
        }),
{
    let ghost start = actions@;
    actions.push(WorkerAction::DisconnectPeer { peer_id });
    match peers.remove_peer(peer_id) {
        Some(entry) => {
            actions.push(WorkerAction::ClosePeer { entry, reason });
        },
        None => {},
    }
    assert(actions@ =~= start + disconnect_peer_next(old(peers).view(), peer_id, reason).1);
}

/// Decides what the listener's worker does for one input, updating the
/// registry of the connections it serves.
pub fn listener_step<T, M>(peers: &mut ListenerPeers<T>, input: WorkerInput<T, M>) -> (actions: Vec<
    WorkerAction<T>,
>)
    requires
        old(peers).wf(),
    ensures
        final(peers).wf(),
        (final(peers).view(), actions@) == listener_next(old(peers).view(), old(peers).entries(), input),
{
    let ghost v0 = peers.view();
    let ghost e0 = peers.entries();
    let ghost inp = input;
    let mut actions: Vec<WorkerAction<T>> = Vec::new();
    match input {
        WorkerInput::Send { peer_id } => {
            if peers.contains(peer_id) {
                actions.push(WorkerAction::Forward { peer_id });
            } else {
                actions.push(WorkerAction::ReplyNotFound);
            }
            assert(actions@ =~= listener_next(v0, e0, inp).1);
        },
        WorkerInput::Disconnect { peer_id } => {
            disconnect_peer_step(peers, &mut actions, peer_id, ConnectionCloseReason::RequestedByLocal);
            assert(actions@ =~= listener_next(v0, e0, inp).1);
        },
        WorkerInput::Shutdown => {
            let ids = peers.peer_ids();
            let mut k: usize = 0;
            while k < ids.len()
                invariant
                    ids@ == e0.map_values(|e: (PeerId, PeerRuntime<T>)| e.0),
                    k <= ids@.len(),
                    actions@ == disconnect_actions(e0.take(k as int)),
                decreases ids@.len() - k,
            {
                actions.push(WorkerAction::DisconnectPeer { peer_id: ids[k] });
                k = k + 1;
                assert(actions@ =~= disconnect_actions(e0.take(k as int)));
            }
            assert(e0.take(k as int) =~= e0);
            close_everything(peers, &mut actions, ConnectionCloseReason::ListenerStopped);
            actions.push(WorkerAction::ShutdownServer);
            actions.push(WorkerAction::Stop);
            assert(actions@ =~= listener_next(v0, e0, inp).1);
        },
        WorkerInput::CommandsClosed => {
            close_everything(peers, &mut actions, ConnectionCloseReason::ListenerStopped);
            actions.push(WorkerAction::ShutdownServer);
            actions.push(WorkerAction::Stop);
            assert(actions@ =~= listener_next(v0, e0, inp).1);
        },
        WorkerInput::ServerStopped => {
            close_everything(peers, &mut actions, ConnectionCloseReason::ListenerStopped);
            actions.push(WorkerAction::Stop);
            assert(actions@ =~= listener_next(v0, e0, inp).1);
        },
        WorkerInput::Connected { peer_id, addr, handle } => {
            match peers.register(peer_id, addr, handle) {
                Some(entry) => {
                    actions.push(
                        WorkerAction::ClosePeer { entry, reason: ConnectionCloseReason::RequestedByLocal },
                    );
                },
                None => {},
            }
            actions.push(WorkerAction::OfferConnection { peer_id });
            assert(actions@ =~= listener_next(v0, e0, inp).1);
        },
        WorkerInput::Event(event) => {
            match event {
                RaknetServerEvent::PeerDisconnected { peer_id, reason, .. } => {
                    match peers.remove_peer(peer_id) {
                        Some(entry) => {
                            actions.push(
                                WorkerAction::ClosePeer {
                                    entry,
                                    reason: ConnectionCloseReason::PeerDisconnected(reason),
                                },
                            );
                        },
                        None => {},
                    }
                },
                RaknetServerEvent::Packet { peer_id, payload, .. } => {
                    if peers.contains(peer_id) {
                        actions.push(
                            WorkerAction::Deliver {
                                peer_id,
                                inbound: ConnectionInbound::Packet(payload),
                                report_rejection: true,
                            },
                        );
                    }
                },
                RaknetServerEvent::DecodeError { addr, error } => {
                    match peers.peer_id_for_addr(addr) {
                        Some(peer_id) => {
                            if peers.contains(peer_id) {
                                actions.push(
                                    WorkerAction::Deliver {
                                        peer_id,
                                        inbound: ConnectionInbound::DecodeError(error),
                                        report_rejection: false,
                                    },
                                );
                            }
                        },
                        None => {},
                    }
                },
                _ => {},
            }
            assert(actions@ =~= listener_next(v0, e0, inp).1);
        },
        WorkerInput::AcceptRejected { peer_id, queue_full } => {
            if queue_full {
                disconnect_peer_step(peers, &mut actions, peer_id, ConnectionCloseReason::InboundBackpressure);
            } else {
                actions.push(WorkerAction::DisconnectPeer { peer_id });
                close_everything(peers, &mut actions, ConnectionCloseReason::ListenerStopped);
                actions.push(WorkerAction::ShutdownServer);
                actions.push(WorkerAction::Stop);
            }
            assert(actions@ =~= listener_next(v0, e0, inp).1);
        },
        WorkerInput::DeliveryRejected { peer_id, queue_full } => {
            let reason = close_reason_for_rejected_delivery(queue_full);
            disconnect_peer_step(peers, &mut actions, peer_id, reason);
            assert(actions@ =~= listener_next(v0, e0, inp).1);
        },
    }
    actions
}

/// The worker keeps its registry consistent through every input, as long as
/// a new connection does not come from an address entered for another peer.
pub proof fn lemma_listener_next_consistent<T, M>(
    v: ListenerPeersView<T>,
    entries: Seq<(PeerId, PeerRuntime<T>)>,
    input: WorkerInput<T, M>,
)
    requires
        registry_consistent(v),
        input matches WorkerInput::Connected { peer_id, addr, .. } ==> (v.ids_by_addr.contains_key(addr)
            ==> v.ids_by_addr[addr] == peer_id),
    ensures
        registry_consistent(listener_next(v, entries, input).0),
{
    match input {
        WorkerInput::Disconnect { peer_id } => lemma_remove_consistent(v, peer_id),
        WorkerInput::Connected { peer_id, addr, handle } => lemma_register_consistent(v, peer_id, addr, handle),
        WorkerInput::Event(event) => match event {
            RaknetServerEvent::PeerDisconnected { peer_id, .. } => lemma_remove_consistent(v, peer_id),
            _ => {},
        },
        WorkerInput::AcceptRejected { peer_id, .. } => lemma_remove_consistent(v, peer_id),
        WorkerInput::DeliveryRejected { peer_id, .. } => lemma_remove_consistent(v, peer_id),
        _ => {},
    }
}

/// A payload from a registered peer is queued for that peer's connection,
/// and a failure to queue it is reported back; a payload from a peer with no
/// connection is dropped. The registry does not change.
pub proof fn lemma_packet_reaches_its_connection<T, M>(
    v: ListenerPeersView<T>,
    entries: Seq<(PeerId, PeerRuntime<T>)>,
    peer_id: PeerId,
    addr: SocketAddr,
    payload: bytes::Bytes,
    reliability: Reliability,
    reliable_index: Option<Sequence24>,
    sequence_index: Option<Sequence24>,
    ordering_index: Option<Sequence24>,
    ordering_channel: Option<u8>,
)
    ensures
        ({
            let (w, actions) = listener_next(
                v,
                entries,
                WorkerInput::<T, M>::Event(
                    RaknetServerEvent::Packet {
                        peer_id,
                        addr,
                        payload,
                        reliability,
                        reliable_index,
                        sequence_index,
                        ordering_index,
                        ordering_channel,
                    },
                ),
            );
            &&& w == v
            &&& v.peers.contains_key(peer_id) ==> actions.len() == 1 && actions[0] == WorkerAction::<T>::Deliver {
                peer_id,
                inbound: ConnectionInbound::Packet(payload),
                report_rejection: true,
            }
            &&& !v.peers.contains_key(peer_id) ==> actions.len() == 0
        }),
{
}

/// A connection's payload is sent for it when its peer is registered;
/// otherwise the command is answered that the peer is not found. The registry
/// does not change.
pub proof fn lemma_send_needs_a_registered_peer<T, M>(
    v: ListenerPeersView<T>,
    entries: Seq<(PeerId, PeerRuntime<T>)>,
    peer_id: PeerId,
)
    ensures
        ({
            let (w, actions) = listener_next(v, entries, WorkerInput::<T, M>::Send { peer_id });
            &&& w == v
            &&& actions.len() == 1
            &&& v.peers.contains_key(peer_id) ==> actions[0] == WorkerAction::<T>::Forward { peer_id }
            &&& !v.peers.contains_key(peer_id) ==> actions[0] == WorkerAction::<T>::ReplyNotFound
        }),
{
}

/// A decode error at an address goes to the connection of the peer
/// registered at that address, with no report if it cannot be queued; at an
/// address with no connection it is dropped.
pub proof fn lemma_decode_error_routed_by_address<T, M>(
    v: ListenerPeersView<T>,
    entries: Seq<(PeerId, PeerRuntime<T>)>,
    addr: SocketAddr,
    error: String,
)
    requires
        registry_consistent(v),
    ensures
        ({
            let (w, actions) = listener_next(
                v,
                entries,
                WorkerInput::<T, M>::Event(RaknetServerEvent::DecodeError { addr, error }),
            );
            &&& w == v
            &&& v.ids_by_addr.contains_key(addr) ==> actions.len() == 1 && actions[0]
                == WorkerAction::<T>::Deliver {
                peer_id: v.ids_by_addr[addr],
                inbound: ConnectionInbound::DecodeError(error),
                report_rejection: false,
            } && v.peers[v.ids_by_addr[addr]].addr == addr
            &&& !v.ids_by_addr.contains_key(addr) ==> actions.len() == 0
        }),
{
}

/// A new connection is offered for acceptance and entered under its peer id
/// and address; an earlier connection of the same peer id is closed first,
/// as asked locally.
pub proof fn lemma_connected_replaces_earlier<T, M>(
    v: ListenerPeersView<T>,
    entries: Seq<(PeerId, PeerRuntime<T>)>,
    peer_id: PeerId,
    addr: SocketAddr,
    handle: T,
)
    ensures
        ({
            let (w, actions) = listener_next(
                v,
                entries,
                WorkerInput::<T, M>::Connected { peer_id, addr, handle },
            );
            &&& w.peers.contains_key(peer_id)
            &&& w.peers[peer_id] == (PeerRuntime { addr, handle })
            &&& w.ids_by_addr.contains_key(addr) && w.ids_by_addr[addr] == peer_id
            &&& v.peers.contains_key(peer_id) ==> actions.len() == 2 && actions[0]
                == WorkerAction::<T>::ClosePeer {
                entry: v.peers[peer_id],
                reason: ConnectionCloseReason::RequestedByLocal,
            } && actions[1] == WorkerAction::<T>::OfferConnection { peer_id }
            &&& !v.peers.contains_key(peer_id) ==> actions.len() == 1 && actions[0]
                == WorkerAction::<T>::OfferConnection { peer_id }
        }),
{
}

/// A connection that could not take a payload, or could not be queued for
/// acceptance while the queue is full, is disconnected: the server is asked
/// to drop the peer and its connection is closed (for backpressure when the
/// queue was full, because the listener stops otherwise) and leaves the
/// registry. When the accept queue is closed, every connection is closed and
/// the listener shuts down.
pub proof fn lemma_rejected_handover_disconnects<T, M>(
    v: ListenerPeersView<T>,
    entries: Seq<(PeerId, PeerRuntime<T>)>,
    peer_id: PeerId,
    queue_full: bool,
)
    ensures
        ({
            let (w, actions) = listener_next(
                v,
                entries,
                WorkerInput::<T, M>::DeliveryRejected { peer_id, queue_full },
            );
            let reason = if queue_full {
                ConnectionCloseReason::InboundBackpressure
            } else {
                ConnectionCloseReason::ListenerStopped
            };
            &&& !w.peers.contains_key(peer_id)
            &&& actions.len() >= 1 && actions[0] == WorkerAction::<T>::DisconnectPeer { peer_id }
            &&& v.peers.contains_key(peer_id) ==> actions.len() == 2 && actions[1]
                == WorkerAction::<T>::ClosePeer { entry: v.peers[peer_id], reason }
            &&& !v.peers.contains_key(peer_id) ==> actions.len() == 1
        }),
        ({
            let (w, actions) = listener_next(
                v,
                entries,
                WorkerInput::<T, M>::AcceptRejected { peer_id, queue_full: true },
            );
            &&& !w.peers.contains_key(peer_id)
            &&& actions.len() >= 1 && actions[0] == WorkerAction::<T>::DisconnectPeer { peer_id }
            &&& v.peers.contains_key(peer_id) ==> actions.len() == 2 && actions[1]
                == WorkerAction::<T>::ClosePeer {
                entry: v.peers[peer_id],
                reason: ConnectionCloseReason::InboundBackpressure,
            }
        }),
        ({
            let (w, actions) = listener_next(
                v,
                entries,
                WorkerInput::<T, M>::AcceptRejected { peer_id, queue_full: false },
            );
            &&& w.peers.dom().len() == 0
            &&& actions.len() == entries.len() + 3
            &&& actions[0] == WorkerAction::<T>::DisconnectPeer { peer_id }
            &&& forall|i: int|
                0 <= i < entries.len() ==> #[trigger] actions[i + 1] == WorkerAction::<T>::ClosePeer {
                    entry: entries[i].1,
                    reason: ConnectionCloseReason::ListenerStopped,
                }
            &&& actions[entries.len() + 1int] == WorkerAction::<T>::ShutdownServer
            &&& actions[entries.len() + 2int] == WorkerAction::<T>::Stop
        }),
{
    let (_, acts) = listener_next(v, entries, WorkerInput::<T, M>::AcceptRejected { peer_id, queue_full: false });
    assert(empty_registry::<T>().peers.dom() =~= Set::<PeerId>::empty());
    assert forall|i: int| 0 <= i < entries.len() implies #[trigger] acts[i + 1] == WorkerAction::<T>::ClosePeer {
        entry: entries[i].1,
        reason: ConnectionCloseReason::ListenerStopped,
    } by {
        assert(acts[i + 1] == close_actions(entries, ConnectionCloseReason::ListenerStopped)[i]);
    }
}

/// Asked to stop, the worker asks the server to disconnect every peer it
/// serves (in the order they were entered), closes each connection as the
/// listener stopping (same order), shuts the server down and leaves its loop,
/// with an empty registry. When the commands end, the same happens without
/// the disconnects; when the server's events end, the connections are closed
/// and the loop left.
pub proof fn lemma_shutdown_closes_everything<T, M>(
    v: ListenerPeersView<T>,
    entries: Seq<(PeerId, PeerRuntime<T>)>,
)
    ensures
        ({
            let (w, actions) = listener_next(v, entries, WorkerInput::<T, M>::Shutdown);
            let n = entries.len() as int;
            &&& w.peers.dom().len() == 0 && w.ids_by_addr.dom().len() == 0
            &&& actions.len() == 2 * n + 2
            &&& forall|i: int|
                0 <= i < n ==> #[trigger] actions[i] == WorkerAction::<T>::DisconnectPeer {
                    peer_id: entries[i].0,
                }
            &&& forall|i: int|
                0 <= i < n ==> #[trigger] actions[n + i] == WorkerAction::<T>::ClosePeer {
                    entry: entries[i].1,
                    reason: ConnectionCloseReason::ListenerStopped,
                }
            &&& actions[2 * n] == WorkerAction::<T>::ShutdownServer
            &&& actions[2 * n + 1] == WorkerAction::<T>::Stop
        }),
        ({
            let (w, actions) = listener_next(v, entries, WorkerInput::<T, M>::CommandsClosed);
            let n = entries.len() as int;
            &&& w.peers.dom().len() == 0
            &&& actions.len() == n + 2
            &&& forall|i: int|
                0 <= i < n ==> #[trigger] actions[i] == WorkerAction::<T>::ClosePeer {
                    entry: entries[i].1,
                    reason: ConnectionCloseReason::ListenerStopped,
                }
            &&& actions[n] == WorkerAction::<T>::ShutdownServer
            &&& actions[n + 1] == WorkerAction::<T>::Stop
        }),
        ({
            let (w, actions) = listener_next(v, entries, WorkerInput::<T, M>::ServerStopped);
            let n = entries.len() as int;
            &&& w.peers.dom().len() == 0
            &&& actions.len() == n + 1
            &&& forall|i: int|
                0 <= i < n ==> #[trigger] actions[i] == WorkerAction::<T>::ClosePeer {
                    entry: entries[i].1,
                    reason: ConnectionCloseReason::ListenerStopped,
                }
            &&& actions[n] == WorkerAction::<T>::Stop
        }),
{
    let n = entries.len() as int;
    let closes = close_actions(entries, ConnectionCloseReason::ListenerStopped);
    let disc = disconnect_actions(entries);
    assert(empty_registry::<T>().peers.dom() =~= Set::<PeerId>::empty());
    assert(empty_registry::<T>().ids_by_addr.dom() =~= Set::<SocketAddr>::empty());
    let (_, a1) = listener_next(v, entries, WorkerInput::<T, M>::Shutdown);
    assert forall|i: int| 0 <= i < n implies #[trigger] a1[i] == WorkerAction::<T>::DisconnectPeer {
        peer_id: entries[i].0,
    } by {
        assert(a1[i] == disc[i]);
    }
    assert forall|i: int| 0 <= i < n implies #[trigger] a1[n + i] == WorkerAction::<T>::ClosePeer {
        entry: entries[i].1,
        reason: ConnectionCloseReason::ListenerStopped,
    } by {
        assert(a1[n + i] == closes[i]);
    }
    let (_, a2) = listener_next(v, entries, WorkerInput::<T, M>::CommandsClosed);
    assert forall|i: int| 0 <= i < n implies #[trigger] a2[i] == WorkerAction::<T>::ClosePeer {
        entry: entries[i].1,
        reason: ConnectionCloseReason::ListenerStopped,
    } by {
        assert(a2[i] == closes[i]);
    }
    let (_, a3) = listener_next(v, entries, WorkerInput::<T, M>::ServerStopped);
    assert forall|i: int| 0 <= i < n implies #[trigger] a3[i] == WorkerAction::<T>::ClosePeer {
        entry: entries[i].1,
        reason: ConnectionCloseReason::ListenerStopped,
    } by {
        assert(a3[i] == closes[i]);
    }
}

/// A peer the server reports disconnected leaves the registry, and its
/// connection, if it had one, is closed with the server's reason; nothing
/// else is done.
pub proof fn lemma_peer_disconnect_closes_its_connection<T, M>(
    v: ListenerPeersView<T>,
    entries: Seq<(PeerId, PeerRuntime<T>)>,
    peer_id: PeerId,
    addr: SocketAddr,
    reason: PeerDisconnectReason,
)
    ensures
        ({
            let (w, actions) = listener_next(
                v,
                entries,
                WorkerInput::<T, M>::Event(RaknetServerEvent::PeerDisconnected { peer_id, addr, reason }),
            );
            &&& !w.peers.contains_key(peer_id)
            &&& v.peers.contains_key(peer_id) ==> actions.len() == 1 && actions[0]
                == WorkerAction::<T>::ClosePeer {
                entry: v.peers[peer_id],
                reason: ConnectionCloseReason::PeerDisconnected(reason),
            }
            &&& !v.peers.contains_key(peer_id) ==> actions.len() == 0 && w == v
        }),
{
}

} // verus!
