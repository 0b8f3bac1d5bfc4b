use mcbe_raknet_rs::connection::{ConnectionCloseReason, ConnectionInbound};
use mcbe_raknet_rs::error::ServerError;
use mcbe_raknet_rs::listener::{
    close_reason_for_rejected_delivery, listener_step, Listener, ListenerPeers, WorkerAction,
    WorkerInput, DEFAULT_ACCEPT_QUEUE_CAPACITY,
};
use mcbe_raknet_rs::net::SocketAddr;
use mcbe_raknet_rs::server::{PeerDisconnectReason, PeerId, RaknetServerEvent};

#[test]
fn bound_listener_defaults() {
    let addr = SocketAddr::v4(0, 0, 0, 0, 19132);
    let listener: Listener<u8> = Listener::bind(addr).unwrap();
    assert_eq!(listener.bind_addr(), addr);
    assert!(!listener.is_started());
    assert_eq!(listener.pong_data(), "");
    let meta = listener.metadata();
    assert_eq!(meta.bind_addr(), addr);
    assert!(!meta.started());
    assert_eq!(meta.shard_count(), 1);
    assert_eq!(meta.advertisement(), "");
    let (t, c, q) = listener.start_plan().unwrap();
    assert_eq!(t.bind_addr, addr);
    assert_eq!(c.shard_count, 1);
    assert_eq!(q.accept, DEFAULT_ACCEPT_QUEUE_CAPACITY);
}

#[test]
fn setters_clamp_to_one_and_start_once() {
    let mut listener: Listener<u8> = Listener::bind(SocketAddr::v4(127, 0, 0, 1, 1)).unwrap();
    listener.set_accept_queue_capacity(0);
    listener.set_inbound_queue_capacity(0);
    listener.set_command_queue_capacity(5);
    listener.set_shard_count(0);
    listener.set_pong_data(String::from("MCPE;x"));
    assert_eq!(listener.pong_data(), "MCPE;x");
    assert_eq!(listener.metadata().shard_count(), 1);
    let (_, _, q) = listener.start_plan().unwrap();
    assert_eq!((q.accept, q.inbound, q.command), (1, 1, 5));
    assert_eq!(listener.runtime_mut().unwrap_err(), ServerError::NotStarted);
    listener.set_runtime(9);
    assert!(listener.is_started());
    assert!(listener.metadata().started());
    assert_eq!(listener.start_plan().unwrap_err(), ServerError::AlreadyStarted);
    assert_eq!(*listener.runtime_mut().unwrap(), 9);
    assert_eq!(listener.take_runtime(), Some(9));
    assert!(!listener.is_started());
}

#[test]
fn registry_replaces_and_removes_connections() {
    let mut peers: ListenerPeers<&'static str> = ListenerPeers::new();
    let p1 = PeerId::from_u64(1);
    let p2 = PeerId::from_u64(2);
    let a = SocketAddr::v4(10, 0, 0, 1, 1);
    let b = SocketAddr::v4(10, 0, 0, 2, 2);
    assert!(peers.register(p1, a, "first").is_none());
    assert!(peers.register(p2, b, "second").is_none());
    let replaced = peers.register(p1, b, "third").unwrap();
    assert_eq!(replaced.handle, "first");
    assert_eq!(replaced.addr, a);
    assert_eq!(peers.peer_id_for_addr(a), None);
    assert_eq!(peers.peer_id_for_addr(b), Some(p1));
    assert_eq!(peers.get(p1).map(|e| e.handle), Some("third"));
    assert!(peers.contains(p2));
    assert_eq!(peers.peer_ids(), vec![p2, p1]);
    let removed = peers.remove_peer(p2).unwrap();
    assert_eq!(removed.handle, "second");
    assert!(!peers.contains(p2));
    let all = peers.close_all_peers();
    assert_eq!(all.len(), 1);
    assert!(peers.get(p1).is_none());
    assert_eq!(peers.peer_id_for_addr(b), None);
}

#[test]
fn rejected_delivery_reasons() {
    assert_eq!(close_reason_for_rejected_delivery(true), ConnectionCloseReason::InboundBackpressure);
    assert_eq!(close_reason_for_rejected_delivery(false), ConnectionCloseReason::ListenerStopped);
}

fn connected(peer: u64, addr: SocketAddr, handle: &'static str) -> WorkerInput<&'static str, u8> {
    WorkerInput::Connected { peer_id: PeerId::from_u64(peer), addr, handle }
}

fn closed_handles(actions: &[WorkerAction<&'static str>]) -> Vec<(&'static str, ConnectionCloseReason)> {
    let mut out = Vec::new();
    for a in actions {
        if let WorkerAction::ClosePeer { entry, reason } = a {
            out.push((entry.handle, reason.clone()));
        }
    }
    out
}

#[test]
fn worker_answers_send_to_unknown_peer_with_not_found() {
    let mut peers: ListenerPeers<&'static str> = ListenerPeers::new();
    let a = SocketAddr::v4(10, 0, 0, 1, 1);
    let acts = listener_step(&mut peers, connected(1, a, "one"));
    assert_eq!(acts.len(), 1);
    assert!(matches!(acts[0], WorkerAction::OfferConnection { peer_id } if peer_id == PeerId::from_u64(1)));
    let acts = listener_step(&mut peers, WorkerInput::<&'static str, u8>::Send { peer_id: PeerId::from_u64(1) });
    assert_eq!(acts.len(), 1);
    assert!(matches!(acts[0], WorkerAction::Forward { peer_id } if peer_id == PeerId::from_u64(1)));
    let acts = listener_step(&mut peers, WorkerInput::<&'static str, u8>::Send { peer_id: PeerId::from_u64(7) });
    assert_eq!(acts.len(), 1);
    assert!(matches!(acts[0], WorkerAction::ReplyNotFound));
}

#[test]
fn worker_closes_old_connection_when_peer_registers_again() {
    let mut peers: ListenerPeers<&'static str> = ListenerPeers::new();
    let a = SocketAddr::v4(10, 0, 0, 1, 1);
    let b = SocketAddr::v4(10, 0, 0, 2, 2);
    listener_step(&mut peers, connected(1, a, "old"));
    let acts = listener_step(&mut peers, connected(1, b, "new"));
    assert_eq!(acts.len(), 2);
    assert_eq!(closed_handles(&acts), vec![("old", ConnectionCloseReason::RequestedByLocal)]);
    assert!(matches!(acts[1], WorkerAction::OfferConnection { .. }));
    assert_eq!(peers.get(PeerId::from_u64(1)).unwrap().handle, "new");
    assert_eq!(peers.peer_id_for_addr(b), Some(PeerId::from_u64(1)));
}

#[test]
fn worker_handles_rejected_accepts() {
    let mut peers: ListenerPeers<&'static str> = ListenerPeers::new();
    let a = SocketAddr::v4(10, 0, 0, 1, 1);
    let b = SocketAddr::v4(10, 0, 0, 2, 2);
    listener_step(&mut peers, connected(1, a, "one"));
    listener_step(&mut peers, connected(2, b, "two"));
    let full = WorkerInput::<&'static str, u8>::AcceptRejected { peer_id: PeerId::from_u64(1), queue_full: true };
    let acts = listener_step(&mut peers, full);
    assert_eq!(acts.len(), 2);
    assert!(matches!(acts[0], WorkerAction::DisconnectPeer { peer_id } if peer_id == PeerId::from_u64(1)));
    assert_eq!(closed_handles(&acts), vec![("one", ConnectionCloseReason::InboundBackpressure)]);
    assert!(!peers.contains(PeerId::from_u64(1)));
    assert!(peers.contains(PeerId::from_u64(2)));
    let gone = WorkerInput::<&'static str, u8>::AcceptRejected { peer_id: PeerId::from_u64(2), queue_full: false };
    let acts = listener_step(&mut peers, gone);
    assert_eq!(acts.len(), 4);
    assert!(matches!(acts[0], WorkerAction::DisconnectPeer { .. }));
    assert_eq!(closed_handles(&acts), vec![("two", ConnectionCloseReason::ListenerStopped)]);
    assert!(matches!(acts[2], WorkerAction::ShutdownServer));
    assert!(matches!(acts[3], WorkerAction::Stop));
    assert!(peers.peer_ids().is_empty());
}

#[test]
fn worker_disconnects_peer_after_failed_delivery() {
    let mut peers: ListenerPeers<&'static str> = ListenerPeers::new();
    let a = SocketAddr::v4(10, 0, 0, 1, 1);
    listener_step(&mut peers, connected(3, a, "three"));
    let rejected = WorkerInput::<&'static str, u8>::DeliveryRejected { peer_id: PeerId::from_u64(3), queue_full: false };
    let acts = listener_step(&mut peers, rejected);
    assert_eq!(acts.len(), 2);
    assert!(matches!(acts[0], WorkerAction::DisconnectPeer { peer_id } if peer_id == PeerId::from_u64(3)));
    assert_eq!(closed_handles(&acts), vec![("three", ConnectionCloseReason::ListenerStopped)]);
    assert!(peers.peer_ids().is_empty());
}

#[test]
fn worker_routes_decode_error_by_address_and_closes_on_disconnect() {
    let mut peers: ListenerPeers<&'static str> = ListenerPeers::new();
    let a = SocketAddr::v4(10, 0, 0, 1, 1);
    let stranger = SocketAddr::v4(10, 0, 0, 9, 9);
    listener_step(&mut peers, connected(4, a, "four"));
    let err = WorkerInput::<&'static str, u8>::Event(RaknetServerEvent::DecodeError { addr: a, error: String::from("bad") });
    let acts = listener_step(&mut peers, err);
    assert_eq!(acts.len(), 1);
    match &acts[0] {
        WorkerAction::Deliver { peer_id, inbound: ConnectionInbound::DecodeError(e), report_rejection } => {
            assert_eq!(*peer_id, PeerId::from_u64(4));
            assert_eq!(e, "bad");
            assert!(!report_rejection);
        }
        _ => panic!("expected a delivery"),
    }
    let err = WorkerInput::<&'static str, u8>::Event(RaknetServerEvent::DecodeError { addr: stranger, error: String::from("x") });
    assert!(listener_step(&mut peers, err).is_empty());
    let gone = WorkerInput::<&'static str, u8>::Event(RaknetServerEvent::PeerDisconnected {
        peer_id: PeerId::from_u64(4),
        addr: a,
        reason: PeerDisconnectReason::RemoteDetectLostConnection,
    });
    let acts = listener_step(&mut peers, gone);
    assert_eq!(
        closed_handles(&acts),
        vec![("four", ConnectionCloseReason::PeerDisconnected(PeerDisconnectReason::RemoteDetectLostConnection))]
    );
    assert!(peers.peer_id_for_addr(a).is_none());
}

#[test]
fn worker_shutdown_disconnects_closes_then_stops() {
    let mut peers: ListenerPeers<&'static str> = ListenerPeers::new();
    listener_step(&mut peers, connected(1, SocketAddr::v4(1, 1, 1, 1, 1), "one"));
    listener_step(&mut peers, connected(2, SocketAddr::v4(2, 2, 2, 2, 2), "two"));
    let acts = listener_step(&mut peers, WorkerInput::<&'static str, u8>::Shutdown);
    assert_eq!(acts.len(), 6);
    assert!(matches!(acts[0], WorkerAction::DisconnectPeer { peer_id } if peer_id == PeerId::from_u64(1)));
    assert!(matches!(acts[1], WorkerAction::DisconnectPeer { peer_id } if peer_id == PeerId::from_u64(2)));
    assert_eq!(
        closed_handles(&acts),
        vec![("one", ConnectionCloseReason::ListenerStopped), ("two", ConnectionCloseReason::ListenerStopped)]
    );
    assert!(matches!(acts[4], WorkerAction::ShutdownServer));
    assert!(matches!(acts[5], WorkerAction::Stop));
    assert!(peers.peer_ids().is_empty());
    let acts = listener_step(&mut peers, WorkerInput::<&'static str, u8>::ServerStopped);
    assert_eq!(acts.len(), 1);
    assert!(matches!(acts[0], WorkerAction::Stop));
}
