use mcbe_raknet_rs::connection::queue::SendQueueError;
use mcbe_raknet_rs::connection::{
    send_response_outcome, ConnectionCloseReason, ConnectionInbound, ConnectionSharedState,
    RecvError,
};
use mcbe_raknet_rs::server::PeerDisconnectReason;

#[test]
fn shared_state_records_close_reason() {
    let mut s = ConnectionSharedState::new();
    assert!(!s.is_closed());
    assert_eq!(s.close_reason(), None);
    s.mark_closed(ConnectionCloseReason::PeerDisconnected(PeerDisconnectReason::Requested));
    assert!(s.is_closed());
    assert_eq!(
        s.close_reason(),
        Some(ConnectionCloseReason::PeerDisconnected(PeerDisconnectReason::Requested))
    );
    s.mark_closed(ConnectionCloseReason::TransportError(String::from("late")));
    assert_eq!(s.close_reason(), Some(ConnectionCloseReason::TransportError(String::from("late"))));
}

#[test]
fn recv_outcomes() {
    let mut s = ConnectionSharedState::new();
    let payload = s
        .recv_outcome(Some(ConnectionInbound::Packet(bytes::Bytes::from_static(b"p"))))
        .unwrap();
    assert_eq!(&payload[..], b"p");
    assert_eq!(
        s.recv_outcome(Some(ConnectionInbound::DecodeError(String::from("bad")))).unwrap_err(),
        RecvError::DecodeError { message: String::from("bad") }
    );
    assert!(!s.is_closed());
    assert_eq!(
        s.recv_outcome(Some(ConnectionInbound::Closed(ConnectionCloseReason::InboundBackpressure)))
            .unwrap_err(),
        RecvError::ConnectionClosed { reason: ConnectionCloseReason::InboundBackpressure }
    );
    assert!(s.is_closed());
    // once the channel is gone, the recorded reason is reported
    assert_eq!(
        s.recv_outcome(None).unwrap_err(),
        RecvError::ConnectionClosed { reason: ConnectionCloseReason::InboundBackpressure }
    );
}

#[test]
fn channel_gone_without_reason_means_listener_stopped() {
    let mut s = ConnectionSharedState::new();
    assert_eq!(s.recv_outcome(None).unwrap_err(), RecvError::ChannelClosed);
    assert!(s.is_closed());
    assert_eq!(s.close_reason(), Some(ConnectionCloseReason::ListenerStopped));
}

#[test]
fn send_outcomes() {
    let mut s = ConnectionSharedState::new();
    assert!(s.send_precheck().is_ok());
    s.mark_closed(ConnectionCloseReason::RequestedByLocal);
    assert_eq!(
        s.send_precheck().unwrap_err(),
        SendQueueError::Transport { message: String::from("connection already closed") }
    );
    assert_eq!(send_response_outcome(Some(Ok(()))), Ok(()));
    assert_eq!(
        send_response_outcome(Some(Err(String::from("no route")))),
        Err(SendQueueError::Transport { message: String::from("no route") })
    );
    assert_eq!(send_response_outcome(None), Err(SendQueueError::ResponseDropped));
}
