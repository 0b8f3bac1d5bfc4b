use mcbe_raknet_rs::net::SocketAddr;
use mcbe_raknet_rs::protocol::reliability::Reliability;
use mcbe_raknet_rs::server::{
    hook_event, HookEvent, PeerDisconnectReason, PeerId, PeerRouteError, RaknetServer,
    RaknetServerBuilder, RaknetServerEvent, SendOptions,
};
use mcbe_raknet_rs::session::RakPriority;
use mcbe_raknet_rs::transport::config::{ShardedRuntimeConfig, TransportConfig};
use mcbe_raknet_rs::transport::events::{
    ConnectedFrameDelivery, RemoteDisconnectReason, ShardedRuntimeEvent, TransportEvent,
};

type TestServer = RaknetServer<(), u32>;

fn frame(bytes: &[u8]) -> ConnectedFrameDelivery {
    ConnectedFrameDelivery {
        payload: bytes::Bytes::copy_from_slice(bytes),
        reliability: Reliability::ReliableOrdered,
        reliable_index: None,
        sequence_index: None,
        ordering_index: None,
        ordering_channel: Some(0),
    }
}

fn connected(shard_id: usize, addr: SocketAddr, frames: Vec<ConnectedFrameDelivery>, receipts: Vec<u64>) -> ShardedRuntimeEvent<u32> {
    ShardedRuntimeEvent::Transport {
        shard_id,
        event: TransportEvent::ConnectedFrames { addr, frames, acked_receipt_ids: receipts },
    }
}

fn drain(server: &mut TestServer) -> Vec<RaknetServerEvent<u32>> {
    let mut out = Vec::new();
    while let Some(e) = server.take_pending_event() {
        out.push(e);
    }
    out
}

#[test]
fn builder_mutators_keep_values() {
    let builder = RaknetServerBuilder::default().shard_count(4);
    assert_eq!(builder.runtime_config.shard_count, 4);
}

#[test]
fn peer_id_roundtrip() {
    let peer = PeerId::from_u64(42);
    assert_eq!(peer.as_u64(), 42);
}

#[test]
fn builder_type_is_exposed() {
    let _ = RaknetServer::<(), u32>::builder();
}

// Own scenarios.

#[test]
fn builder_shard_count_zero_counts_as_one() {
    let builder = RaknetServerBuilder::default().shard_count(0);
    assert_eq!(builder.runtime_config.shard_count, 1);
}

#[test]
fn builder_setters_and_mutators() {
    let addr = SocketAddr::v4(127, 0, 0, 1, 19133);
    let mut builder = RaknetServerBuilder::default()
        .bind_addr(addr)
        .runtime_config(ShardedRuntimeConfig { shard_count: 3 });
    assert_eq!(builder.transport_config.bind_addr, addr);
    assert_eq!(builder.runtime_config.shard_count, 3);
    builder.runtime_config_mut().shard_count = 8;
    builder.transport_config_mut().advertisement = String::from("MCPE;Test");
    assert_eq!(builder.runtime_config.shard_count, 8);
    assert_eq!(builder.transport_config.advertisement, "MCPE;Test");
    let other = TransportConfig { bind_addr: SocketAddr::v4(0, 0, 0, 0, 1), advertisement: String::new() };
    let builder = builder.transport_config(other);
    assert_eq!(builder.transport_config.bind_addr, SocketAddr::v4(0, 0, 0, 0, 1));
    assert_eq!(builder.runtime_config.shard_count, 8);
}

#[test]
fn runtime_config_validation_rejects_zero_shards() {
    let err = ShardedRuntimeConfig { shard_count: 0 }.validate().unwrap_err();
    assert_eq!(err.config, "ShardedRuntimeConfig");
    assert_eq!(err.field, "shard_count");
    assert!(ShardedRuntimeConfig::default().validate().is_ok());
}

#[test]
fn send_options_default_is_reliable_ordered_high() {
    let o = SendOptions::default();
    assert_eq!(o.reliability, Reliability::ReliableOrdered);
    assert_eq!(o.channel, 0);
    assert_eq!(o.priority, RakPriority::High);
}

#[test]
fn ensure_peer_assigns_ids_in_order_and_keeps_them() {
    let mut server: TestServer = RaknetServer::new(());
    let a = SocketAddr::v4(10, 0, 0, 1, 1000);
    let b = SocketAddr::v4(10, 0, 0, 2, 1000);
    let (pa, new_a) = server.ensure_peer(a, 0);
    let (pb, new_b) = server.ensure_peer(b, 1);
    let (pa2, new_a2) = server.ensure_peer(a, 2);
    assert_eq!((pa.as_u64(), new_a), (1, true));
    assert_eq!((pb.as_u64(), new_b), (2, true));
    assert_eq!((pa2, new_a2), (pa, false));
    assert_eq!(server.peer_addr(pa), Some(a));
    assert_eq!(server.peer_shard(pa), Some(2));
    assert_eq!(server.peer_id_for_addr(b), Some(pb));
    assert_eq!(server.resolve_peer_route(pb), Ok((b, 1)));
}

#[test]
fn remove_peer_unbinds_both_ways() {
    let mut server: TestServer = RaknetServer::new(());
    let a = SocketAddr::v4(10, 0, 0, 1, 1000);
    let (pa, _) = server.ensure_peer(a, 0);
    assert_eq!(server.remove_peer(a), Some(pa));
    assert_eq!(server.remove_peer(a), None);
    assert_eq!(server.peer_addr(pa), None);
    assert_eq!(server.peer_id_for_addr(a), None);
    assert_eq!(server.resolve_peer_route(pa), Err(PeerRouteError::PeerNotFound));
}

#[test]
fn connected_frames_report_connection_packets_and_receipts() {
    let mut server: TestServer = RaknetServer::new(());
    let a = SocketAddr::v4(10, 0, 0, 1, 1000);
    server.enqueue_runtime_event(connected(3, a, vec![frame(b"one"), frame(b"two")], vec![7, 9]));
    let events = drain(&mut server);
    assert_eq!(events.len(), 5);
    match &events[0] {
        RaknetServerEvent::PeerConnected { peer_id, addr, shard_id } => {
            assert_eq!((peer_id.as_u64(), *addr, *shard_id), (1, a, 3));
        }
        other => panic!("unexpected event {other:?}"),
    }
    match (&events[1], &events[2]) {
        (RaknetServerEvent::Packet { payload: p1, .. }, RaknetServerEvent::Packet { payload: p2, .. }) => {
            assert_eq!(&p1[..], b"one");
            assert_eq!(&p2[..], b"two");
        }
        other => panic!("unexpected events {other:?}"),
    }
    match (&events[3], &events[4]) {
        (
            RaknetServerEvent::ReceiptAcked { receipt_id: r1, .. },
            RaknetServerEvent::ReceiptAcked { receipt_id: r2, .. },
        ) => assert_eq!((*r1, *r2), (7, 9)),
        other => panic!("unexpected events {other:?}"),
    }
    // a second delivery from the same address reports no new connection
    server.enqueue_runtime_event(connected(3, a, vec![frame(b"three")], vec![]));
    let events = drain(&mut server);
    assert_eq!(events.len(), 1);
    assert!(matches!(events[0], RaknetServerEvent::Packet { .. }));
}

#[test]
fn remote_disconnect_reports_known_peers_only() {
    let mut server: TestServer = RaknetServer::new(());
    let a = SocketAddr::v4(10, 0, 0, 1, 1000);
    server.enqueue_runtime_event(connected(0, a, vec![], vec![]));
    let _ = drain(&mut server);
    let disconnect = |addr| ShardedRuntimeEvent::<u32>::Transport {
        shard_id: 0,
        event: TransportEvent::PeerDisconnected {
            addr,
            reason: RemoteDisconnectReason::DisconnectionNotification { reason_code: Some(3) },
        },
    };
    server.enqueue_runtime_event(disconnect(a));
    server.enqueue_runtime_event(disconnect(a));
    let events = drain(&mut server);
    assert_eq!(events.len(), 1);
    match &events[0] {
        RaknetServerEvent::PeerDisconnected { peer_id, addr, reason } => {
            assert_eq!(peer_id.as_u64(), 1);
            assert_eq!(*addr, a);
            assert_eq!(
                *reason,
                PeerDisconnectReason::RemoteDisconnectionNotification { reason_code: Some(3) }
            );
        }
        other => panic!("unexpected event {other:?}"),
    }
}

#[test]
fn worker_stop_disconnects_its_peers_in_order() {
    let mut server: TestServer = RaknetServer::new(());
    let a = SocketAddr::v4(10, 0, 0, 1, 1000);
    let b = SocketAddr::v4(10, 0, 0, 2, 1000);
    let c = SocketAddr::v4(10, 0, 0, 3, 1000);
    server.enqueue_runtime_event(connected(1, a, vec![], vec![]));
    server.enqueue_runtime_event(connected(2, b, vec![], vec![]));
    server.enqueue_runtime_event(connected(1, c, vec![], vec![]));
    let _ = drain(&mut server);
    server.enqueue_runtime_event(ShardedRuntimeEvent::WorkerStopped { shard_id: 1 });
    let events = drain(&mut server);
    assert_eq!(events.len(), 3);
    let stopped: Vec<(u64, SocketAddr)> = events[..2]
        .iter()
        .map(|e| match e {
            RaknetServerEvent::PeerDisconnected { peer_id, addr, reason } => {
                assert_eq!(*reason, PeerDisconnectReason::WorkerStopped { shard_id: 1 });
                (peer_id.as_u64(), *addr)
            }
            other => panic!("unexpected event {other:?}"),
        })
        .collect();
    assert_eq!(stopped, vec![(1, a), (3, c)]);
    assert!(matches!(events[2], RaknetServerEvent::WorkerStopped { shard_id: 1 }));
    assert_eq!(server.peer_id_for_addr(b).map(|p| p.as_u64()), Some(2));
    assert_eq!(server.peer_id_for_addr(a), None);
}

#[test]
fn other_runtime_events_pass_through() {
    let mut server: TestServer = RaknetServer::new(());
    let a = SocketAddr::v4(10, 0, 0, 1, 1000);
    server.enqueue_runtime_event(ShardedRuntimeEvent::Transport {
        shard_id: 0,
        event: TransportEvent::RateLimited { addr: a },
    });
    server.enqueue_runtime_event(ShardedRuntimeEvent::Transport {
        shard_id: 0,
        event: TransportEvent::ConnectedDatagramDroppedNoSession { addr: a },
    });
    server.enqueue_runtime_event(ShardedRuntimeEvent::Metrics {
        shard_id: 4,
        snapshot: Box::new(11),
        dropped_non_critical_events: 2,
    });
    server.enqueue_runtime_event(ShardedRuntimeEvent::WorkerError { shard_id: 4, message: String::from("boom") });
    let events = drain(&mut server);
    assert_eq!(events.len(), 3);
    assert!(matches!(events[0], RaknetServerEvent::PeerRateLimited { .. }));
    assert_eq!(events[1].metrics_snapshot(), Some((4, &11, 2)));
    assert_eq!(events[0].metrics_snapshot(), None);
    assert!(matches!(events[2], RaknetServerEvent::WorkerError { shard_id: 4, .. }));
}

#[test]
fn finish_disconnect_reports_requested() {
    let mut server: TestServer = RaknetServer::new(());
    let a = SocketAddr::v4(10, 0, 0, 1, 1000);
    let (pa, _) = server.ensure_peer(a, 0);
    server.finish_disconnect(pa, a);
    assert_eq!(server.peer_addr(pa), None);
    let events = drain(&mut server);
    assert_eq!(events.len(), 1);
    assert!(matches!(
        events[0],
        RaknetServerEvent::PeerDisconnected { reason: PeerDisconnectReason::Requested, .. }
    ));
}

#[test]
fn hook_events_route_three_kinds() {
    let a = SocketAddr::v4(10, 0, 0, 1, 1000);
    let p = PeerId::from_u64(5);
    assert!(matches!(
        hook_event::<u32>(RaknetServerEvent::PeerConnected { peer_id: p, addr: a, shard_id: 0 }),
        Some(HookEvent::Connect(_))
    ));
    assert!(matches!(
        hook_event::<u32>(RaknetServerEvent::PeerDisconnected {
            peer_id: p,
            addr: a,
            reason: PeerDisconnectReason::Requested
        }),
        Some(HookEvent::Disconnect(_))
    ));
    assert!(hook_event::<u32>(RaknetServerEvent::WorkerStopped { shard_id: 0 }).is_none());
}
