//! A connection's shared state and the outcomes of its receive and send
//! operations.
pub mod queue;

use vstd::prelude::*;

use crate::connection::queue::SendQueueError;
use crate::server::PeerDisconnectReason;

verus! {

/// Why a connection was closed.
#[derive(Debug, Clone, PartialEq, Eq)]
pub enum ConnectionCloseReason {
    RequestedByLocal,
    PeerDisconnected(PeerDisconnectReason),
    ListenerStopped,
    InboundBackpressure,
    TransportError(String),
}

impl ConnectionCloseReason {
    /// A copy of the reason.
    pub fn duplicate(&self) -> (r: ConnectionCloseReason)
        ensures
            r == *self,
    {
        match self {
            ConnectionCloseReason::RequestedByLocal => ConnectionCloseReason::RequestedByLocal,
            ConnectionCloseReason::PeerDisconnected(reason) => {
                ConnectionCloseReason::PeerDisconnected(*reason)
            },
            ConnectionCloseReason::ListenerStopped => ConnectionCloseReason::ListenerStopped,
            ConnectionCloseReason::InboundBackpressure => ConnectionCloseReason::InboundBackpressure,
            ConnectionCloseReason::TransportError(message) => {
                ConnectionCloseReason::TransportError(message.clone())
            },
        }
    }
}

/// Why a receive failed.
#[derive(Debug, Clone, PartialEq, Eq)]
pub enum RecvError {
    ConnectionClosed { reason: ConnectionCloseReason },
    DecodeError { message: String },
    ChannelClosed,
}

/// What the listener hands a connection: a payload, a decode failure, or the
/// connection's close.
#[derive(Debug)]
pub enum ConnectionInbound {
    Packet(bytes::Bytes),
    DecodeError(String),
    Closed(ConnectionCloseReason),
}

/// What a connection and the listener that serves it both see: whether the
/// connection is closed, and why.
#[derive(Debug)]
pub struct ConnectionSharedState {
    closed: bool,
    close_reason: Option<ConnectionCloseReason>,
}

impl ConnectionSharedState {
    pub closed spec fn spec_closed(&self) -> bool {
        self.closed
    }

    pub closed spec fn spec_close_reason(&self) -> Option<ConnectionCloseReason> {
        self.close_reason
    }

    /// An open connection's state.
    pub fn new() -> (s: ConnectionSharedState)
        ensures
            !s.spec_closed(),
            s.spec_close_reason() is None,
    {
        ConnectionSharedState { closed: false, close_reason: None }
    }

    /// Marks the connection closed for `reason` (replacing an earlier reason).
    pub fn mark_closed(&mut self, reason: ConnectionCloseReason)
        ensures
            final(self).spec_closed(),
            final(self).spec_close_reason() == Some(reason),
    {
        self.closed = true;
        self.close_reason = Some(reason);
    }

    pub fn is_closed(&self) -> (b: bool)
        ensures
            b == self.spec_closed(),
    {
        self.closed
    }

    /// Why the connection was closed, if it was.
    pub fn close_reason(&self) -> (r: Option<ConnectionCloseReason>)
        ensures
            r == self.spec_close_reason(),
    {
        match &self.close_reason {
            Some(reason) => Some(reason.duplicate()),
            None => None,
        }
    }

    /// What a receive returns for what the listener handed over (`None`: the
    /// listener's channel is gone). A payload is returned; a decode failure is
    /// reported; a close is recorded and reported. When the channel is gone,
    /// a recorded close is reported; otherwise the connection is marked
    /// closed because the listener stopped, and the closed channel reported.
    pub fn recv_outcome(&mut self, inbound: Option<ConnectionInbound>) -> (r: Result<
        bytes::Bytes,
        RecvError,
    >)
        ensures
            match inbound {
                Some(ConnectionInbound::Packet(payload)) => r == Ok::<bytes::Bytes, RecvError>(
                    payload,
                ) && *final(self) == *old(self),
                Some(ConnectionInbound::DecodeError(message)) => r == Err::<bytes::Bytes, RecvError>(
                    RecvError::DecodeError { message },
                ) && *final(self) == *old(self),
                Some(ConnectionInbound::Closed(reason)) => r == Err::<bytes::Bytes, RecvError>(
                    RecvError::ConnectionClosed { reason },
                ) && final(self).spec_closed() && final(self).spec_close_reason() == Some(reason),
                None => match old(self).spec_close_reason() {
                    Some(reason) => r == Err::<bytes::Bytes, RecvError>(
                        RecvError::ConnectionClosed { reason },
                    ) && *final(self) == *old(self),
                    None => r == Err::<bytes::Bytes, RecvError>(RecvError::ChannelClosed)
                        && final(self).spec_closed() && final(self).spec_close_reason() == Some(
                        ConnectionCloseReason::ListenerStopped,
                    ),
                },
            },
    {
        match inbound {
            Some(ConnectionInbound::Packet(payload)) => Ok(payload),
            Some(ConnectionInbound::DecodeError(message)) => Err(RecvError::DecodeError { message }),
            Some(ConnectionInbound::Closed(reason)) => {
                self.mark_closed(reason.duplicate());
                Err(RecvError::ConnectionClosed { reason })
            },
            None => {
                if let Some(reason) = self.close_reason() {
                    Err(RecvError::ConnectionClosed { reason })
                } else {
                    self.mark_closed(ConnectionCloseReason::ListenerStopped);
                    Err(RecvError::ChannelClosed)
                }
            },
        }
    }

    /// Whether a send may be queued: not on a closed connection.
    pub fn send_precheck(&self) -> (r: Result<(), SendQueueError>)
        ensures
            r is Ok <==> !self.spec_closed(),
            r matches Err(e) ==> e matches SendQueueError::Transport { message } && message@
                == "connection already closed"@,
    {
        if self.closed {
            return Err(SendQueueError::Transport { message: "connection already closed".to_owned() });
        }
        Ok(())
    }
}

/// What a send returns for the listener's answer (`None`: no answer came):
/// success, the transport's failure message, or a dropped response.
pub fn send_response_outcome(response: Option<Result<(), String>>) -> (r: Result<(), SendQueueError>)
    ensures
        r == match response {
            Some(Ok(())) => Ok(()),
            Some(Err(message)) => Err(SendQueueError::Transport { message }),
            None => Err(SendQueueError::ResponseDropped),
        },
{
    match response {
        Some(Ok(())) => Ok(()),
        Some(Err(message)) => Err(SendQueueError::Transport { message }),
        None => Err(SendQueueError::ResponseDropped),
    }
}

} // verus!
