//! Error types shared by the codecs, the session layer and configuration checks.
use vstd::prelude::*;

verus! {

/// Why a byte sequence could not be decoded.
#[derive(Debug, Clone, Copy, PartialEq, Eq, Structural)]
pub enum DecodeError {
    /// The input ended before a field was complete.
    UnexpectedEof,
    /// A datagram's flag byte does not describe an acceptable datagram.
    InvalidDatagramFlags(u8),
    /// An offline packet did not carry the expected magic.
    InvalidMagic,
    /// The first byte of an offline packet names no known packet.
    InvalidOfflinePacketId(u8),
    /// An open-connection request 2 body matches no known layout.
    InvalidRequest2Layout,
    /// A socket address carried an address-family byte other than 4 or 6.
    InvalidAddressVersion(u8),
    /// A frame announced a split but carried no split header.
    MissingSplitInfo,
    /// A split frame announced zero parts.
    SplitCountZero,
    /// A split frame announced more parts than allowed.
    SplitTooLarge,
    /// A split frame's part index is not below its part count.
    SplitIndexOutOfRange,
    /// Too many split compounds are already being reassembled.
    SplitBufferFull,
    /// Parts of one split compound disagree on the number of parts.
    SplitCountMismatch,
}

/// Why a value could not be encoded.
#[derive(Debug, Clone, Copy, PartialEq, Eq, Structural)]
pub enum EncodeError {
    /// The datagram flags do not match the payload kind.
    InvalidDatagramFlags(u8),
    /// An MTU outside the supported range.
    InvalidMtu(u16),
    /// An unconnected pong message of the day longer than the wire format allows.
    OfflinePongMotdTooLong(usize),
    /// A frame payload whose length in bits does not fit the 16-bit length field.
    FramePayloadTooLarge(usize),
    /// A frame lacks an index or split header that its reliability or split flag requires.
    FrameFieldMissing,
    /// An acknowledgement holds more ranges than its 16-bit count field can express.
    TooManyAckRanges(usize),
}

/// A configuration value that failed validation: which configuration, which field, and why.
#[derive(Debug, Clone, Copy, PartialEq, Eq)]
pub struct ConfigValidationError {
    pub config: &'static str,
    pub field: &'static str,
    pub message: &'static str,
}

impl ConfigValidationError {
    pub fn new(config: &'static str, field: &'static str, message: &'static str) -> (e: Self)
        ensures
            e.config == config,
            e.field == field,
            e.message == message,
    {
        ConfigValidationError { config, field, message }
    }
}

/// Why a listener operation failed.
#[derive(Debug, Clone, PartialEq, Eq)]
pub enum ServerError {
    /// The listener was started already.
    AlreadyStarted,
    /// The listener has not been started.
    NotStarted,
    /// The listener's worker no longer hands out connections.
    AcceptChannelClosed,
    /// The listener's worker no longer takes commands.
    CommandChannelClosed,
    /// The listener's worker stopped before answering.
    WorkerStopped,
    /// A configuration failed validation.
    InvalidConfig(ConfigValidationError),
    /// An I/O operation failed, for the reason given.
    Io(String),
}

} // verus!
