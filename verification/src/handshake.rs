//! Offline packets: the messages exchanged before a connection exists
//! (pings, pongs, the two-step open-connection handshake and its rejections).
use vstd::prelude::*;

use crate::buffer::{bytes_as_slice, bytes_contents, bytes_from_vec, bytes_len};
use crate::error::{DecodeError, EncodeError};
use crate::net::SocketAddr;
use crate::protocol::constants::{
    DEFAULT_UNCONNECTED_MAGIC, ID_ALREADY_CONNECTED, ID_CONNECTION_BANNED,
    ID_CONNECTION_REQUEST_FAILED, ID_INCOMPATIBLE_PROTOCOL_VERSION, ID_IP_RECENTLY_CONNECTED,
    ID_NO_FREE_INCOMING_CONNECTIONS, ID_OPEN_CONNECTION_REPLY_1, ID_OPEN_CONNECTION_REPLY_2,
    ID_OPEN_CONNECTION_REQUEST_1, ID_OPEN_CONNECTION_REQUEST_2, ID_UNCONNECTED_PING,
    ID_UNCONNECTED_PING_OPEN_CONNECTIONS, ID_UNCONNECTED_PONG, MAXIMUM_MTU_SIZE, MINIMUM_MTU_SIZE,
};
use crate::protocol::frame::copy_range;
use crate::protocol::primitives::{
    lemma_addr_roundtrip, lemma_read_bool_at, lemma_read_i64_at, lemma_read_magic_at,
    lemma_read_u16_at, lemma_read_u32_at, lemma_read_u64_at, lemma_read_u8_at, addr_bytes, bool_bytes, magic_eq, read_addr, read_bool, read_i64, read_magic, read_u16,
    read_u32, read_u64, read_u8, spec_read_addr, spec_read_bool, spec_read_i64, spec_read_magic,
    spec_read_u16, spec_read_u32, spec_read_u64, spec_read_u8, u16_be_bytes, u32_be_bytes,
    u64_be_bytes, write_addr, write_bool, write_bytes, write_i64, write_magic, write_u16,
    write_u32, write_u64, write_u8, Magic, ReadResult,
};

verus! {

/// The longest message of the day an unconnected pong may carry.
pub const MAX_UNCONNECTED_PONG_MOTD_BYTES: usize = 32767;

#[derive(Debug, Clone, Copy, PartialEq, Eq)]
pub struct UnconnectedPing {
    pub ping_time: i64,
    pub client_guid: u64,
    pub magic: Magic,
}

#[derive(Debug, Clone)]
pub struct UnconnectedPong {
    pub ping_time: i64,
    pub server_guid: u64,
    pub magic: Magic,
    pub motd: bytes::Bytes,
}

pub struct UnconnectedPongView {
    pub ping_time: i64,
    pub server_guid: u64,
    pub magic: Magic,
    pub motd: Seq<u8>,
}

impl View for UnconnectedPong {
    type V = UnconnectedPongView;

    open spec fn view(&self) -> UnconnectedPongView {
        UnconnectedPongView {
            ping_time: self.ping_time,
            server_guid: self.server_guid,
            magic: self.magic,
            motd: bytes_contents(self.motd),
        }
    }
}

#[derive(Debug, Clone, Copy, PartialEq, Eq)]
pub struct OpenConnectionRequest1 {
    pub protocol_version: u8,
    pub mtu: u16,
    pub magic: Magic,
}

#[derive(Debug, Clone, Copy, PartialEq, Eq)]
pub struct OpenConnectionReply1 {
    pub server_guid: u64,
    pub mtu: u16,
    pub cookie: Option<u32>,
    pub magic: Magic,
}

#[derive(Debug, Clone, Copy, PartialEq, Eq)]
pub struct OpenConnectionRequest2 {
    pub server_addr: SocketAddr,
    pub mtu: u16,
    pub client_guid: u64,
    pub cookie: Option<u32>,
    pub client_proof: bool,
    pub parse_path: Request2ParsePath,
    pub magic: Magic,
}

/// Which layout an open-connection request 2 was read with.
#[derive(Debug, Clone, Copy, PartialEq, Eq, Structural)]
pub enum Request2ParsePath {
    StrictNoCookie,
    StrictWithCookie,
    AmbiguousPreferredNoCookie,
    AmbiguousPreferredWithCookie,
    LegacyHeuristic,
}

#[derive(Debug, Clone, Copy, PartialEq, Eq)]
pub struct OpenConnectionReply2 {
    pub server_guid: u64,
    pub server_addr: SocketAddr,
    pub mtu: u16,
    pub use_encryption: bool,
    pub magic: Magic,
}

#[derive(Debug, Clone, Copy, PartialEq, Eq)]
pub struct IncompatibleProtocolVersion {
    pub protocol_version: u8,
    pub server_guid: u64,
    pub magic: Magic,
}

#[derive(Debug, Clone, Copy, PartialEq, Eq)]
pub struct ConnectionRequestFailed {
    pub server_guid: u64,
    pub magic: Magic,
}

#[derive(Debug, Clone, Copy, PartialEq, Eq)]
pub struct AlreadyConnected {
    pub server_guid: u64,
    pub magic: Magic,
}

#[derive(Debug, Clone, Copy, PartialEq, Eq)]
pub struct NoFreeIncomingConnections {
    pub server_guid: u64,
    pub magic: Magic,
}

#[derive(Debug, Clone, Copy, PartialEq, Eq)]
pub struct ConnectionBanned {
    pub server_guid: u64,
    pub magic: Magic,
}

#[derive(Debug, Clone, Copy, PartialEq, Eq)]
pub struct IpRecentlyConnected {
    pub server_guid: u64,
    pub magic: Magic,
}

#[derive(Debug, Clone)]
pub enum OfflinePacket {
    UnconnectedPing(UnconnectedPing),
    UnconnectedPingOpenConnections(UnconnectedPing),
    UnconnectedPong(UnconnectedPong),
    OpenConnectionRequest1(OpenConnectionRequest1),
    OpenConnectionReply1(OpenConnectionReply1),
    OpenConnectionRequest2(OpenConnectionRequest2),
    OpenConnectionReply2(OpenConnectionReply2),
    IncompatibleProtocolVersion(IncompatibleProtocolVersion),
    ConnectionRequestFailed(ConnectionRequestFailed),
    AlreadyConnected(AlreadyConnected),
    NoFreeIncomingConnections(NoFreeIncomingConnections),
    ConnectionBanned(ConnectionBanned),
    IpRecentlyConnected(IpRecentlyConnected),
}

pub enum OfflinePacketView {
    UnconnectedPing(UnconnectedPing),
    UnconnectedPingOpenConnections(UnconnectedPing),
    UnconnectedPong(UnconnectedPongView),
    OpenConnectionRequest1(OpenConnectionRequest1),
    OpenConnectionReply1(OpenConnectionReply1),
    OpenConnectionRequest2(OpenConnectionRequest2),
    OpenConnectionReply2(OpenConnectionReply2),
    IncompatibleProtocolVersion(IncompatibleProtocolVersion),
    ConnectionRequestFailed(ConnectionRequestFailed),
    AlreadyConnected(AlreadyConnected),
    NoFreeIncomingConnections(NoFreeIncomingConnections),
    ConnectionBanned(ConnectionBanned),
    IpRecentlyConnected(IpRecentlyConnected),
}

impl View for OfflinePacket {
    type V = OfflinePacketView;

    open spec fn view(&self) -> OfflinePacketView {
        match self {
            OfflinePacket::UnconnectedPing(p) => OfflinePacketView::UnconnectedPing(*p),
            OfflinePacket::UnconnectedPingOpenConnections(p) => OfflinePacketView::UnconnectedPingOpenConnections(*p),
            OfflinePacket::UnconnectedPong(p) => OfflinePacketView::UnconnectedPong(p@),
            OfflinePacket::OpenConnectionRequest1(p) => OfflinePacketView::OpenConnectionRequest1(*p),
            OfflinePacket::OpenConnectionReply1(p) => OfflinePacketView::OpenConnectionReply1(*p),
            OfflinePacket::OpenConnectionRequest2(p) => OfflinePacketView::OpenConnectionRequest2(*p),
            OfflinePacket::OpenConnectionReply2(p) => OfflinePacketView::OpenConnectionReply2(*p),
            OfflinePacket::IncompatibleProtocolVersion(p) => OfflinePacketView::IncompatibleProtocolVersion(*p),
            OfflinePacket::ConnectionRequestFailed(p) => OfflinePacketView::ConnectionRequestFailed(*p),
            OfflinePacket::AlreadyConnected(p) => OfflinePacketView::AlreadyConnected(*p),
            OfflinePacket::NoFreeIncomingConnections(p) => OfflinePacketView::NoFreeIncomingConnections(*p),
            OfflinePacket::ConnectionBanned(p) => OfflinePacketView::ConnectionBanned(*p),
            OfflinePacket::IpRecentlyConnected(p) => OfflinePacketView::IpRecentlyConnected(*p),
        }
    }
}

// ---------------------------------------------------------------------------
// Identifiers and the wire form
// ---------------------------------------------------------------------------

/// The identifier byte each kind of offline packet starts with.
pub open spec fn spec_packet_id(p: OfflinePacketView) -> u8 {
    match p {
        OfflinePacketView::UnconnectedPing(_) => ID_UNCONNECTED_PING,
        OfflinePacketView::UnconnectedPingOpenConnections(_) => ID_UNCONNECTED_PING_OPEN_CONNECTIONS,
        OfflinePacketView::UnconnectedPong(_) => ID_UNCONNECTED_PONG,
        OfflinePacketView::OpenConnectionRequest1(_) => ID_OPEN_CONNECTION_REQUEST_1,
        OfflinePacketView::OpenConnectionReply1(_) => ID_OPEN_CONNECTION_REPLY_1,
        OfflinePacketView::OpenConnectionRequest2(_) => ID_OPEN_CONNECTION_REQUEST_2,
        OfflinePacketView::OpenConnectionReply2(_) => ID_OPEN_CONNECTION_REPLY_2,
        OfflinePacketView::IncompatibleProtocolVersion(_) => ID_INCOMPATIBLE_PROTOCOL_VERSION,
        OfflinePacketView::ConnectionRequestFailed(_) => ID_CONNECTION_REQUEST_FAILED,
        OfflinePacketView::AlreadyConnected(_) => ID_ALREADY_CONNECTED,
        OfflinePacketView::NoFreeIncomingConnections(_) => ID_NO_FREE_INCOMING_CONNECTIONS,
        OfflinePacketView::ConnectionBanned(_) => ID_CONNECTION_BANNED,
        OfflinePacketView::IpRecentlyConnected(_) => ID_IP_RECENTLY_CONNECTED,
    }
}

pub open spec fn mtu_in_range(mtu: u16) -> bool {
    MINIMUM_MTU_SIZE <= mtu <= MAXIMUM_MTU_SIZE
}

/// `n` zero bytes.
pub open spec fn zeros(n: nat) -> Seq<u8> {
    Seq::new(n, |i: int| 0u8)
}

pub open spec fn opt_u32_bytes(c: Option<u32>) -> Seq<u8> {
    match c {
        Some(v) => u32_be_bytes(v),
        None => Seq::empty(),
    }
}

/// The bytes after the identifier byte.
pub open spec fn offline_body_bytes(p: OfflinePacketView) -> Seq<u8> {
    match p {
        OfflinePacketView::UnconnectedPing(q) => u64_be_bytes(q.ping_time as u64) + q.magic@
            + u64_be_bytes(q.client_guid),
        OfflinePacketView::UnconnectedPingOpenConnections(q) => u64_be_bytes(q.ping_time as u64)
            + q.magic@ + u64_be_bytes(q.client_guid),
        OfflinePacketView::UnconnectedPong(q) => u64_be_bytes(q.ping_time as u64) + u64_be_bytes(
            q.server_guid,
        ) + q.magic@ + u16_be_bytes(q.motd.len() as u16) + q.motd,
        OfflinePacketView::OpenConnectionRequest1(q) => q.magic@ + seq![q.protocol_version]
            + zeros(if q.mtu >= 18 {
            (q.mtu - 18) as nat
        } else {
            0
        }),
        OfflinePacketView::OpenConnectionReply1(q) => q.magic@ + u64_be_bytes(q.server_guid)
            + bool_bytes(q.cookie is Some) + opt_u32_bytes(q.cookie) + u16_be_bytes(q.mtu),
        OfflinePacketView::OpenConnectionRequest2(q) => q.magic@ + (match q.cookie {
            Some(c) => u32_be_bytes(c) + bool_bytes(q.client_proof),
            None => Seq::empty(),
        }) + addr_bytes(q.server_addr) + u16_be_bytes(q.mtu) + u64_be_bytes(q.client_guid),
        OfflinePacketView::OpenConnectionReply2(q) => q.magic@ + u64_be_bytes(q.server_guid)
            + addr_bytes(q.server_addr) + u16_be_bytes(q.mtu) + bool_bytes(q.use_encryption),
        OfflinePacketView::IncompatibleProtocolVersion(q) => seq![q.protocol_version] + q.magic@
            + u64_be_bytes(q.server_guid),
        OfflinePacketView::ConnectionRequestFailed(q) => q.magic@ + u64_be_bytes(q.server_guid),
        OfflinePacketView::AlreadyConnected(q) => q.magic@ + u64_be_bytes(q.server_guid),
        OfflinePacketView::NoFreeIncomingConnections(q) => q.magic@ + u64_be_bytes(q.server_guid),
        OfflinePacketView::ConnectionBanned(q) => q.magic@ + u64_be_bytes(q.server_guid),
        OfflinePacketView::IpRecentlyConnected(q) => q.magic@ + u64_be_bytes(q.server_guid),
    }
}

/// The wire form of an offline packet.
pub open spec fn offline_bytes(p: OfflinePacketView) -> Seq<u8> {
    seq![spec_packet_id(p)] + offline_body_bytes(p)
}

/// What encoding has written when it fails: the identifier byte, and for a
/// pong also its ping time, server guid and magic (the message of the day is
/// checked after them).
pub open spec fn offline_error_written(p: OfflinePacketView) -> Seq<u8> {
    match p {
        OfflinePacketView::UnconnectedPong(q) => seq![spec_packet_id(p)] + u64_be_bytes(
            q.ping_time as u64,
        ) + u64_be_bytes(q.server_guid) + q.magic@,
        _ => seq![spec_packet_id(p)],
    }
}

/// The error encoding gives, if any: a message of the day longer than
/// 32767 bytes, or an MTU outside the supported range for the packets that
/// carry one.
pub open spec fn offline_encode_error(p: OfflinePacketView) -> Option<EncodeError> {
    match p {
        OfflinePacketView::UnconnectedPong(q) => if q.motd.len()
            > MAX_UNCONNECTED_PONG_MOTD_BYTES {
            Some(EncodeError::OfflinePongMotdTooLong(q.motd.len() as usize))
        } else {
            None
        },
        OfflinePacketView::OpenConnectionRequest1(q) => if mtu_in_range(q.mtu) {
            None
        } else {
            Some(EncodeError::InvalidMtu(q.mtu))
        },
        OfflinePacketView::OpenConnectionReply1(q) => if mtu_in_range(q.mtu) {
            None
        } else {
            Some(EncodeError::InvalidMtu(q.mtu))
        },
        OfflinePacketView::OpenConnectionRequest2(q) => if mtu_in_range(q.mtu) {
            None
        } else {
            Some(EncodeError::InvalidMtu(q.mtu))
        },
        OfflinePacketView::OpenConnectionReply2(q) => if mtu_in_range(q.mtu) {
            None
        } else {
            Some(EncodeError::InvalidMtu(q.mtu))
        },
        _ => None,
    }
}

// ---------------------------------------------------------------------------
// Reading
// ---------------------------------------------------------------------------

/// Reading a magic at `p` that must equal `expected`.
pub open spec fn spec_read_expected_magic(s: Seq<u8>, p: usize, expected: Magic) -> ReadResult<
    Magic,
> {
    match spec_read_magic(s, p) {
        Err(e) => Err(e),
        Ok((m, q)) => if m == expected {
            Ok((m, q))
        } else {
            Err(DecodeError::InvalidMagic)
        },
    }
}

pub open spec fn spec_decode_ping(s: Seq<u8>, p: usize, expected: Magic) -> Result<
    UnconnectedPing,
    DecodeError,
> {
    match spec_read_i64(s, p) {
        Err(e) => Err(e),
        Ok((ping_time, p1)) => match spec_read_expected_magic(s, p1, expected) {
            Err(e) => Err(e),
            Ok((magic, p2)) => match spec_read_u64(s, p2) {
                Err(e) => Err(e),
                Ok((client_guid, _)) => Ok(UnconnectedPing { ping_time, client_guid, magic }),
            },
        },
    }
}

pub open spec fn spec_decode_pong(s: Seq<u8>, p: usize, expected: Magic) -> Result<
    UnconnectedPongView,
    DecodeError,
> {
    match spec_read_i64(s, p) {
        Err(e) => Err(e),
        Ok((ping_time, p1)) => match spec_read_u64(s, p1) {
            Err(e) => Err(e),
            Ok((server_guid, p2)) => match spec_read_expected_magic(s, p2, expected) {
                Err(e) => Err(e),
                Ok((magic, p3)) => match spec_read_u16(s, p3) {
                    Err(e) => Err(e),
                    Ok((len, p4)) => if p4 + len > s.len() {
                        Err(DecodeError::UnexpectedEof)
                    } else {
                        Ok(
                            UnconnectedPongView {
                                ping_time,
                                server_guid,
                                magic,
                                motd: s.subrange(p4 as int, p4 + len),
                            },
                        )
                    },
                },
            },
        },
    }
}

/// The MTU a request 1 announces is the length of the request: its 18 bytes
/// of fields and padding, counted modulo 2^16.
pub open spec fn spec_decode_request_1(s: Seq<u8>, p: usize, expected: Magic) -> Result<
    OpenConnectionRequest1,
    DecodeError,
> {
    match spec_read_expected_magic(s, p, expected) {
        Err(e) => Err(e),
        Ok((magic, p1)) => match spec_read_u8(s, p1) {
            Err(e) => Err(e),
            Ok((protocol_version, p2)) => Ok(
                OpenConnectionRequest1 {
                    protocol_version,
                    mtu: ((s.len() - p2) + 18) as u16,
                    magic,
                },
            ),
        },
    }
}

pub open spec fn spec_decode_reply_1(s: Seq<u8>, p: usize, expected: Magic) -> Result<
    OpenConnectionReply1,
    DecodeError,
> {
    match spec_read_expected_magic(s, p, expected) {
        Err(e) => Err(e),
        Ok((magic, p1)) => match spec_read_u64(s, p1) {
            Err(e) => Err(e),
            Ok((server_guid, p2)) => match spec_read_bool(s, p2) {
                Err(e) => Err(e),
                Ok((has_cookie, p3)) => if has_cookie {
                    match spec_read_u32(s, p3) {
                        Err(e) => Err(e),
                        Ok((cookie, p4)) => match spec_read_u16(s, p4) {
                            Err(e) => Err(e),
                            Ok((mtu, _)) => Ok(
                                OpenConnectionReply1 {
                                    server_guid,
                                    mtu,
                                    cookie: Some(cookie),
                                    magic,
                                },
                            ),
                        },
                    }
                } else {
                    match spec_read_u16(s, p3) {
                        Err(e) => Err(e),
                        Ok((mtu, _)) => Ok(
                            OpenConnectionReply1 { server_guid, mtu, cookie: None, magic },
                        ),
                    }
                },
            },
        },
    }
}

/// The fields of a request 2 read with one layout.
#[derive(Debug, Clone, Copy, PartialEq, Eq)]
pub struct Request2Candidate {
    pub server_addr: SocketAddr,
    pub mtu: u16,
    pub client_guid: u64,
    pub cookie: Option<u32>,
    pub client_proof: bool,
}

/// Reading the request 2 body `s[p..]` with or without a cookie. With a
/// cookie, four cookie bytes and a proof byte come first; a strict read
/// refuses a proof byte above 1. The address, MTU and client guid must end
/// exactly at the end of the input.
pub open spec fn spec_parse_request_2_candidate(
    s: Seq<u8>,
    p: usize,
    with_cookie: bool,
    strict_bool: bool,
) -> Result<Request2Candidate, DecodeError> {
    let head = if with_cookie {
        if p + 5 > s.len() {
            Err(DecodeError::UnexpectedEof)
        } else if strict_bool && s[p + 4] > 1 {
            Err(DecodeError::InvalidRequest2Layout)
        } else {
            match spec_read_u32(s, p) {
                Ok((c, _)) => Ok((Some(c), s[p + 4] == 1, (p + 5) as usize)),
                Err(e) => Err(e),
            }
        }
    } else {
        Ok((None, false, p))
    };
    match head {
        Err(e) => Err(e),
        Ok((cookie, client_proof, q)) => match spec_read_addr(s, q) {
            Err(e) => Err(e),
            Ok((server_addr, q1)) => match spec_read_u16(s, q1) {
                Err(e) => Err(e),
                Ok((mtu, q2)) => match spec_read_u64(s, q2) {
                    Err(e) => Err(e),
                    Ok((client_guid, q3)) => if q3 != s.len() {
                        Err(DecodeError::InvalidRequest2Layout)
                    } else {
                        Ok(Request2Candidate { server_addr, mtu, client_guid, cookie, client_proof })
                    },
                },
            },
        },
    }
}

pub open spec fn candidate_into_request(
    c: Request2Candidate,
    magic: Magic,
    parse_path: Request2ParsePath,
) -> OpenConnectionRequest2 {
    OpenConnectionRequest2 {
        server_addr: c.server_addr,
        mtu: c.mtu,
        client_guid: c.client_guid,
        cookie: c.cookie,
        client_proof: c.client_proof,
        parse_path,
        magic,
    }
}

/// Whether `s[p]` exists and is an address-family byte (4 or 6).
pub open spec fn starts_with_family(s: Seq<u8>, p: usize) -> bool {
    p < s.len() && (s[p as int] == 4 || s[p as int] == 6)
}

/// Reading a request 2 body: when exactly one strict layout fits, that one;
/// when both fit, the layout without a cookie if the body starts with an
/// address-family byte and the one with a cookie otherwise; when neither
/// fits, the lenient layout that has a cookie exactly when the body starts
/// with a byte other than an address-family byte.
pub open spec fn spec_decode_request_2(s: Seq<u8>, p: usize, expected: Magic) -> Result<
    OpenConnectionRequest2,
    DecodeError,
> {
    match spec_read_expected_magic(s, p, expected) {
        Err(e) => Err(e),
        Ok((magic, q)) => {
            let no_cookie = spec_parse_request_2_candidate(s, q, false, true);
            let with_cookie = spec_parse_request_2_candidate(s, q, true, true);
            match (no_cookie, with_cookie) {
                (Ok(c), Err(_)) => Ok(
                    candidate_into_request(c, magic, Request2ParsePath::StrictNoCookie),
                ),
                (Err(_), Ok(c)) => Ok(
                    candidate_into_request(c, magic, Request2ParsePath::StrictWithCookie),
                ),
                (Ok(a), Ok(b)) => if starts_with_family(s, q) {
                    Ok(
                        candidate_into_request(
                            a,
                            magic,
                            Request2ParsePath::AmbiguousPreferredNoCookie,
                        ),
                    )
                } else {
                    Ok(
                        candidate_into_request(
                            b,
                            magic,
                            Request2ParsePath::AmbiguousPreferredWithCookie,
                        ),
                    )
                },
                (Err(_), Err(_)) => {
                    let legacy_cookie = q < s.len() && !starts_with_family(s, q);
                    match spec_parse_request_2_candidate(s, q, legacy_cookie, false) {
                        Err(e) => Err(e),
                        Ok(c) => Ok(
                            candidate_into_request(c, magic, Request2ParsePath::LegacyHeuristic),
                        ),
                    }
                },
            }
        },
    }
}

pub open spec fn spec_decode_reply_2(s: Seq<u8>, p: usize, expected: Magic) -> Result<
    OpenConnectionReply2,
    DecodeError,
> {
    match spec_read_expected_magic(s, p, expected) {
        Err(e) => Err(e),
        Ok((magic, p1)) => match spec_read_u64(s, p1) {
            Err(e) => Err(e),
            Ok((server_guid, p2)) => match spec_read_addr(s, p2) {
                Err(e) => Err(e),
                Ok((server_addr, p3)) => match spec_read_u16(s, p3) {
                    Err(e) => Err(e),
                    Ok((mtu, p4)) => match spec_read_bool(s, p4) {
                        Err(e) => Err(e),
                        Ok((use_encryption, _)) => Ok(
                            OpenConnectionReply2 {
                                server_guid,
                                server_addr,
                                mtu,
                                use_encryption,
                                magic,
                            },
                        ),
                    },
                },
            },
        },
    }
}

pub open spec fn spec_decode_incompatible(s: Seq<u8>, p: usize, expected: Magic) -> Result<
    IncompatibleProtocolVersion,
    DecodeError,
> {
    match spec_read_u8(s, p) {
        Err(e) => Err(e),
        Ok((protocol_version, p1)) => match spec_read_expected_magic(s, p1, expected) {
            Err(e) => Err(e),
            Ok((magic, p2)) => match spec_read_u64(s, p2) {
                Err(e) => Err(e),
                Ok((server_guid, _)) => Ok(
                    IncompatibleProtocolVersion { protocol_version, server_guid, magic },
                ),
            },
        },
    }
}

/// The magic and server guid of a rejection packet.
pub open spec fn spec_decode_reject(s: Seq<u8>, p: usize, expected: Magic) -> Result<
    (Magic, u64),
    DecodeError,
> {
    match spec_read_expected_magic(s, p, expected) {
        Err(e) => Err(e),
        Ok((magic, p1)) => match spec_read_u64(s, p1) {
            Err(e) => Err(e),
            Ok((server_guid, _)) => Ok((magic, server_guid)),
        },
    }
}

pub open spec fn map_ok<T, U>(r: Result<T, DecodeError>, f: spec_fn(T) -> U) -> Result<U, DecodeError> {
    match r {
        Ok(v) => Ok(f(v)),
        Err(e) => Err(e),
    }
}

/// Decoding an offline packet whose magic must be `expected`.
pub open spec fn spec_decode_offline(s: Seq<u8>, expected: Magic) -> Result<
    OfflinePacketView,
    DecodeError,
> {
    if s.len() == 0 {
        Err(DecodeError::UnexpectedEof)
    } else {
        let id = s[0];
        if id == ID_UNCONNECTED_PING {
            map_ok(spec_decode_ping(s, 1, expected), |v| OfflinePacketView::UnconnectedPing(v))
        } else if id == ID_UNCONNECTED_PING_OPEN_CONNECTIONS {
            map_ok(
                spec_decode_ping(s, 1, expected),
                |v| OfflinePacketView::UnconnectedPingOpenConnections(v),
            )
        } else if id == ID_UNCONNECTED_PONG {
            map_ok(spec_decode_pong(s, 1, expected), |v| OfflinePacketView::UnconnectedPong(v))
        } else if id == ID_OPEN_CONNECTION_REQUEST_1 {
            map_ok(
                spec_decode_request_1(s, 1, expected),
                |v| OfflinePacketView::OpenConnectionRequest1(v),
            )
        } else if id == ID_OPEN_CONNECTION_REPLY_1 {
            map_ok(
                spec_decode_reply_1(s, 1, expected),
                |v| OfflinePacketView::OpenConnectionReply1(v),
            )
        } else if id == ID_OPEN_CONNECTION_REQUEST_2 {
            map_ok(
                spec_decode_request_2(s, 1, expected),
                |v| OfflinePacketView::OpenConnectionRequest2(v),
            )
        } else if id == ID_OPEN_CONNECTION_REPLY_2 {
            map_ok(
                spec_decode_reply_2(s, 1, expected),
                |v| OfflinePacketView::OpenConnectionReply2(v),
            )
        } else if id == ID_INCOMPATIBLE_PROTOCOL_VERSION {
            map_ok(
                spec_decode_incompatible(s, 1, expected),
                |v| OfflinePacketView::IncompatibleProtocolVersion(v),
            )
        } else if id == ID_CONNECTION_REQUEST_FAILED {
            map_ok(
                spec_decode_reject(s, 1, expected),
                |v: (Magic, u64)|
                    OfflinePacketView::ConnectionRequestFailed(
                        ConnectionRequestFailed { server_guid: v.1, magic: v.0 },
                    ),
            )
        } else if id == ID_ALREADY_CONNECTED {
            map_ok(
                spec_decode_reject(s, 1, expected),
                |v: (Magic, u64)|
                    OfflinePacketView::AlreadyConnected(
                        AlreadyConnected { server_guid: v.1, magic: v.0 },
                    ),
            )
        } else if id == ID_NO_FREE_INCOMING_CONNECTIONS {
            map_ok(
                spec_decode_reject(s, 1, expected),
                |v: (Magic, u64)|
                    OfflinePacketView::NoFreeIncomingConnections(
                        NoFreeIncomingConnections { server_guid: v.1, magic: v.0 },
                    ),
            )
        } else if id == ID_CONNECTION_BANNED {
            map_ok(
                spec_decode_reject(s, 1, expected),
                |v: (Magic, u64)|
                    OfflinePacketView::ConnectionBanned(
                        ConnectionBanned { server_guid: v.1, magic: v.0 },
                    ),
            )
        } else if id == ID_IP_RECENTLY_CONNECTED {
            map_ok(
                spec_decode_reject(s, 1, expected),
                |v: (Magic, u64)|
                    OfflinePacketView::IpRecentlyConnected(
                        IpRecentlyConnected { server_guid: v.1, magic: v.0 },
                    ),
            )
        } else {
            Err(DecodeError::InvalidOfflinePacketId(id))
        }
    }
}

// ---------------------------------------------------------------------------
// Executable decoders
// ---------------------------------------------------------------------------

fn read_expected_magic(s: &[u8], p: usize, expected: &Magic) -> (r: ReadResult<Magic>)
    ensures
        r == spec_read_expected_magic(s@, p, *expected),
{
    let (m, q) = read_magic(s, p)?;
    validate_magic(m, *expected)?;
    Ok((m, q))
}

fn validate_magic(magic: Magic, expected_magic: Magic) -> (r: Result<Magic, DecodeError>)
    ensures
        r == if magic == expected_magic {
            Ok::<Magic, DecodeError>(magic)
        } else {
            Err(DecodeError::InvalidMagic)
        },
{
    if !magic_eq(&magic, &expected_magic) {
        return Err(DecodeError::InvalidMagic);
    }
    Ok(magic)
}

fn decode_ping(s: &[u8], p: usize, expected: &Magic) -> (r: Result<UnconnectedPing, DecodeError>)
    ensures
        r == spec_decode_ping(s@, p, *expected),
{
    let (ping_time, p1) = read_i64(s, p)?;
    let (magic, p2) = read_expected_magic(s, p1, expected)?;
    let (client_guid, _) = read_u64(s, p2)?;
    Ok(UnconnectedPing { ping_time, client_guid, magic })
}

fn decode_pong(s: &[u8], p: usize, expected: &Magic) -> (r: Result<UnconnectedPong, DecodeError>)
    ensures
        match r {
            Ok(v) => spec_decode_pong(s@, p, *expected) == Ok::<UnconnectedPongView, DecodeError>(
                v@,
            ),
            Err(e) => spec_decode_pong(s@, p, *expected) == Err::<UnconnectedPongView, DecodeError>(
                e,
            ),
        },
{
    let (ping_time, p1) = read_i64(s, p)?;
    let (server_guid, p2) = read_u64(s, p1)?;
    let (magic, p3) = read_expected_magic(s, p2, expected)?;
    let (len, p4) = read_u16(s, p3)?;
    let motd_len = len as usize;
    if s.len() - p4 < motd_len {
        return Err(DecodeError::UnexpectedEof);
    }
    let motd = bytes_from_vec(copy_range(s, p4, p4 + motd_len));
    Ok(UnconnectedPong { ping_time, server_guid, magic, motd })
}

fn decode_request_1(s: &[u8], p: usize, expected: &Magic) -> (r: Result<
    OpenConnectionRequest1,
    DecodeError,
>)
    requires
        p >= 1,
    ensures
        r == spec_decode_request_1(s@, p, *expected),
{
    let (magic, p1) = read_expected_magic(s, p, expected)?;
    let (protocol_version, p2) = read_u8(s, p1)?;
    let padding_len = s.len() - p2;
    let mtu = #[verifier::truncate] ((padding_len + 18) as u16);
    Ok(OpenConnectionRequest1 { protocol_version, mtu, magic })
}

fn decode_reply_1(s: &[u8], p: usize, expected: &Magic) -> (r: Result<
    OpenConnectionReply1,
    DecodeError,
>)
    ensures
        r == spec_decode_reply_1(s@, p, *expected),
{
    let (magic, p1) = read_expected_magic(s, p, expected)?;
    let (server_guid, p2) = read_u64(s, p1)?;
    let (has_cookie, p3) = read_bool(s, p2)?;
    if has_cookie {
        let (cookie, p4) = read_u32(s, p3)?;
        let (mtu, _) = read_u16(s, p4)?;
        Ok(OpenConnectionReply1 { server_guid, mtu, cookie: Some(cookie), magic })
    } else {
        let (mtu, _) = read_u16(s, p3)?;
        Ok(OpenConnectionReply1 { server_guid, mtu, cookie: None, magic })
    }
}

fn parse_request_2_candidate(s: &[u8], p: usize, with_cookie: bool, strict_bool: bool) -> (r:
    Result<Request2Candidate, DecodeError>)
    ensures
        r == spec_parse_request_2_candidate(s@, p, with_cookie, strict_bool),
{
    let mut cookie = None;
    let mut client_proof = false;
    let mut q = p;
    if with_cookie {
        if p >= s.len() || s.len() - p < 5 {
            return Err(DecodeError::UnexpectedEof);
        }
        let raw_proof = s[p + 4];
        if strict_bool && raw_proof > 1 {
            return Err(DecodeError::InvalidRequest2Layout);
        }
        let (c, _) = read_u32(s, p)?;
        cookie = Some(c);
        client_proof = raw_proof == 1;
        q = p + 5;
    }
    let (server_addr, q1) = read_addr(s, q)?;
    let (mtu, q2) = read_u16(s, q1)?;
    let (client_guid, q3) = read_u64(s, q2)?;
    if q3 != s.len() {
        return Err(DecodeError::InvalidRequest2Layout);
    }
    Ok(Request2Candidate { server_addr, mtu, client_guid, cookie, client_proof })
}

fn into_request(c: Request2Candidate, magic: Magic, parse_path: Request2ParsePath) -> (r:
    OpenConnectionRequest2)
    ensures
        r == candidate_into_request(c, magic, parse_path),
{
    OpenConnectionRequest2 {
        server_addr: c.server_addr,
        mtu: c.mtu,
        client_guid: c.client_guid,
        cookie: c.cookie,
        client_proof: c.client_proof,
        parse_path,
        magic,
    }
}

fn decode_request_2(s: &[u8], p: usize, expected: &Magic) -> (r: Result<
    OpenConnectionRequest2,
    DecodeError,
>)
    ensures
        r == spec_decode_request_2(s@, p, *expected),
{
    let (magic, q) = read_expected_magic(s, p, expected)?;
    let strict_no_cookie = parse_request_2_candidate(s, q, false, true);
    let strict_with_cookie = parse_request_2_candidate(s, q, true, true);
    let starts_family = q < s.len() && (s[q] == 4 || s[q] == 6);
    match (strict_no_cookie, strict_with_cookie) {
        (Ok(c), Err(_)) => Ok(into_request(c, magic, Request2ParsePath::StrictNoCookie)),
        (Err(_), Ok(c)) => Ok(into_request(c, magic, Request2ParsePath::StrictWithCookie)),
        (Ok(a), Ok(b)) => {
            if starts_family {
                Ok(into_request(a, magic, Request2ParsePath::AmbiguousPreferredNoCookie))
            } else {
                Ok(into_request(b, magic, Request2ParsePath::AmbiguousPreferredWithCookie))
            }
        },
        (Err(_), Err(_)) => {
            let legacy_cookie = q < s.len() && !starts_family;
            let c = parse_request_2_candidate(s, q, legacy_cookie, false)?;
            Ok(into_request(c, magic, Request2ParsePath::LegacyHeuristic))
        },
    }
}

fn decode_reply_2(s: &[u8], p: usize, expected: &Magic) -> (r: Result<
    OpenConnectionReply2,
    DecodeError,
>)
    ensures
        r == spec_decode_reply_2(s@, p, *expected),
{
    let (magic, p1) = read_expected_magic(s, p, expected)?;
    let (server_guid, p2) = read_u64(s, p1)?;
    let (server_addr, p3) = read_addr(s, p2)?;
    let (mtu, p4) = read_u16(s, p3)?;
    let (use_encryption, _) = read_bool(s, p4)?;
    Ok(OpenConnectionReply2 { server_guid, server_addr, mtu, use_encryption, magic })
}

fn decode_incompatible(s: &[u8], p: usize, expected: &Magic) -> (r: Result<
    IncompatibleProtocolVersion,
    DecodeError,
>)
    ensures
        r == spec_decode_incompatible(s@, p, *expected),
{
    let (protocol_version, p1) = read_u8(s, p)?;
    let (magic, p2) = read_expected_magic(s, p1, expected)?;
    let (server_guid, _) = read_u64(s, p2)?;
    Ok(IncompatibleProtocolVersion { protocol_version, server_guid, magic })
}

fn decode_reject_packet(s: &[u8], p: usize, expected: &Magic) -> (r: Result<
    (Magic, u64),
    DecodeError,
>)
    ensures
        r == spec_decode_reject(s@, p, *expected),
{
    let (magic, p1) = read_expected_magic(s, p, expected)?;
    let (server_guid, _) = read_u64(s, p1)?;
    Ok((magic, server_guid))
}

/// Checks that a message of the day fits an unconnected pong.
pub fn validate_unconnected_pong_motd_len(len: usize) -> (r: Result<(), EncodeError>)
    ensures
        r is Ok <==> len <= MAX_UNCONNECTED_PONG_MOTD_BYTES,
        r matches Err(e) ==> e == EncodeError::OfflinePongMotdTooLong(len),
{
    if len > MAX_UNCONNECTED_PONG_MOTD_BYTES {
        return Err(EncodeError::OfflinePongMotdTooLong(len));
    }
    Ok(())
}

fn validate_mtu(mtu: u16) -> (r: Result<(), EncodeError>)
    ensures
        r is Ok <==> mtu_in_range(mtu),
        r matches Err(e) ==> e == EncodeError::InvalidMtu(mtu),
{
    if mtu < MINIMUM_MTU_SIZE || mtu > MAXIMUM_MTU_SIZE {
        return Err(EncodeError::InvalidMtu(mtu));
    }
    Ok(())
}

impl OfflinePacket {
    /// The identifier byte this packet starts with.
    pub fn id(&self) -> (id: u8)
        ensures
            id == spec_packet_id(self@),
    {
        match self {
            OfflinePacket::UnconnectedPing(_) => ID_UNCONNECTED_PING,
            OfflinePacket::UnconnectedPingOpenConnections(_) => ID_UNCONNECTED_PING_OPEN_CONNECTIONS,
            OfflinePacket::UnconnectedPong(_) => ID_UNCONNECTED_PONG,
            OfflinePacket::OpenConnectionRequest1(_) => ID_OPEN_CONNECTION_REQUEST_1,
            OfflinePacket::OpenConnectionReply1(_) => ID_OPEN_CONNECTION_REPLY_1,
            OfflinePacket::OpenConnectionRequest2(_) => ID_OPEN_CONNECTION_REQUEST_2,
            OfflinePacket::OpenConnectionReply2(_) => ID_OPEN_CONNECTION_REPLY_2,
            OfflinePacket::IncompatibleProtocolVersion(_) => ID_INCOMPATIBLE_PROTOCOL_VERSION,
            OfflinePacket::ConnectionRequestFailed(_) => ID_CONNECTION_REQUEST_FAILED,
            OfflinePacket::AlreadyConnected(_) => ID_ALREADY_CONNECTED,
            OfflinePacket::NoFreeIncomingConnections(_) => ID_NO_FREE_INCOMING_CONNECTIONS,
            OfflinePacket::ConnectionBanned(_) => ID_CONNECTION_BANNED,
            OfflinePacket::IpRecentlyConnected(_) => ID_IP_RECENTLY_CONNECTED,
        }
    }

    fn check_encodable(&self) -> (r: Result<(), EncodeError>)
        ensures
            match r {
                Ok(()) => offline_encode_error(self@) is None,
                Err(e) => offline_encode_error(self@) == Some(e),
            },
    {
        match self {
            OfflinePacket::UnconnectedPong(pkt) => validate_unconnected_pong_motd_len(
                bytes_len(&pkt.motd),
            ),
            OfflinePacket::OpenConnectionRequest1(pkt) => validate_mtu(pkt.mtu),
            OfflinePacket::OpenConnectionReply1(pkt) => validate_mtu(pkt.mtu),
            OfflinePacket::OpenConnectionRequest2(pkt) => validate_mtu(pkt.mtu),
            OfflinePacket::OpenConnectionReply2(pkt) => validate_mtu(pkt.mtu),
            _ => Ok(()),
        }
    }

    /// Appends this packet's wire form to `out`. Fails when a pong's message
    /// of the day is too long or an MTU is out of range, having written the
    /// identifier byte (and a pong's fields before its message of the day).
    pub fn encode(&self, out: &mut Vec<u8>) -> (r: Result<(), EncodeError>)
        ensures
            match r {
                Ok(()) => offline_encode_error(self@) is None && final(out)@ == old(out)@
                    + offline_bytes(self@),
                Err(e) => offline_encode_error(self@) == Some(e) && final(out)@ == old(out)@
                    + offline_error_written(self@),
            },
    {
        write_u8(out, self.id());
        match self.check_encodable() {
            Ok(()) => {},
            Err(e) => {
                if let OfflinePacket::UnconnectedPong(pkt) = self {
                    write_i64(out, pkt.ping_time);
                    write_u64(out, pkt.server_guid);
                    write_magic(out, &pkt.magic);
                }
                assert(out@ =~= old(out)@ + offline_error_written(self@));
                return Err(e);
            },
        }
        let ghost start = out@;
        self.encode_body(out);
        assert(out@ =~= old(out)@ + offline_bytes(self@));
        Ok(())
    }

    fn encode_body(&self, out: &mut Vec<u8>)
        requires
            offline_encode_error(self@) is None,
        ensures
            final(out)@ == old(out)@ + offline_body_bytes(self@),
    {
        match self {
            OfflinePacket::UnconnectedPing(pkt) | OfflinePacket::UnconnectedPingOpenConnections(
                pkt,
            ) => {
                write_i64(out, pkt.ping_time);
                write_magic(out, &pkt.magic);
                write_u64(out, pkt.client_guid);
            },
            OfflinePacket::UnconnectedPong(pkt) => {
                write_i64(out, pkt.ping_time);
                write_u64(out, pkt.server_guid);
                write_magic(out, &pkt.magic);
                let len = bytes_len(&pkt.motd);
                write_u16(out, len as u16);
                write_bytes(out, bytes_as_slice(&pkt.motd));
            },
            OfflinePacket::OpenConnectionRequest1(pkt) => {
                write_magic(out, &pkt.magic);
                write_u8(out, pkt.protocol_version);
                let padding_len: u16 = if pkt.mtu >= 18 {
                    pkt.mtu - 18
                } else {
                    0
                };
                let ghost before = out@;
                let mut i: u16 = 0;
                while i < padding_len
                    invariant
                        i <= padding_len,
                        out@ == before + zeros(i as nat),
                    decreases padding_len - i,
                {
                    out.push(0u8);
                    i = i + 1;
                    assert(out@ =~= before + zeros(i as nat));
                }
            },
            OfflinePacket::OpenConnectionReply1(pkt) => {
                write_magic(out, &pkt.magic);
                write_u64(out, pkt.server_guid);
                write_bool(out, pkt.cookie.is_some());
                if let Some(cookie) = pkt.cookie {
                    write_u32(out, cookie);
                }
                write_u16(out, pkt.mtu);
            },
            OfflinePacket::OpenConnectionRequest2(pkt) => {
                write_magic(out, &pkt.magic);
                if let Some(cookie) = pkt.cookie {
                    write_u32(out, cookie);
                    write_bool(out, pkt.client_proof);
                }
                write_addr(out, &pkt.server_addr);
                write_u16(out, pkt.mtu);
                write_u64(out, pkt.client_guid);
            },
            OfflinePacket::OpenConnectionReply2(pkt) => {
                write_magic(out, &pkt.magic);
                write_u64(out, pkt.server_guid);
                write_addr(out, &pkt.server_addr);
                write_u16(out, pkt.mtu);
                write_bool(out, pkt.use_encryption);
            },
            OfflinePacket::IncompatibleProtocolVersion(pkt) => {
                write_u8(out, pkt.protocol_version);
                write_magic(out, &pkt.magic);
                write_u64(out, pkt.server_guid);
            },
            OfflinePacket::ConnectionRequestFailed(pkt) => {
                write_magic(out, &pkt.magic);
                write_u64(out, pkt.server_guid);
            },
            OfflinePacket::AlreadyConnected(pkt) => {
                write_magic(out, &pkt.magic);
                write_u64(out, pkt.server_guid);
            },
            OfflinePacket::NoFreeIncomingConnections(pkt) => {
                write_magic(out, &pkt.magic);
                write_u64(out, pkt.server_guid);
            },
            OfflinePacket::ConnectionBanned(pkt) => {
                write_magic(out, &pkt.magic);
                write_u64(out, pkt.server_guid);
            },
            OfflinePacket::IpRecentlyConnected(pkt) => {
                write_magic(out, &pkt.magic);
                write_u64(out, pkt.server_guid);
            },
        }
        assert(out@ =~= old(out)@ + offline_body_bytes(self@));
    }

    /// Decodes an offline packet carrying the default magic.
    pub fn decode(s: &[u8]) -> (r: Result<OfflinePacket, DecodeError>)
        ensures
            match r {
                Ok(p) => spec_decode_offline(s@, DEFAULT_UNCONNECTED_MAGIC) == Ok::<
                    OfflinePacketView,
                    DecodeError,
                >(p@),
                Err(e) => spec_decode_offline(s@, DEFAULT_UNCONNECTED_MAGIC) == Err::<
                    OfflinePacketView,
                    DecodeError,
                >(e),
            },
    {
        Self::decode_with_magic(s, DEFAULT_UNCONNECTED_MAGIC)
    }

    /// Decodes an offline packet whose magic must be `expected_magic`.
    pub fn decode_with_magic(s: &[u8], expected_magic: Magic) -> (r: Result<
        OfflinePacket,
        DecodeError,
    >)
        ensures
            match r {
                Ok(p) => spec_decode_offline(s@, expected_magic) == Ok::<
                    OfflinePacketView,
                    DecodeError,
                >(p@),
                Err(e) => spec_decode_offline(s@, expected_magic) == Err::<
                    OfflinePacketView,
                    DecodeError,
                >(e),
            },
    {
        let (id, _) = read_u8(s, 0)?;
        let m = &expected_magic;
        if id == ID_UNCONNECTED_PING {
            Ok(OfflinePacket::UnconnectedPing(decode_ping(s, 1, m)?))
        } else if id == ID_UNCONNECTED_PING_OPEN_CONNECTIONS {
            Ok(OfflinePacket::UnconnectedPingOpenConnections(decode_ping(s, 1, m)?))
        } else if id == ID_UNCONNECTED_PONG {
            Ok(OfflinePacket::UnconnectedPong(decode_pong(s, 1, m)?))
        } else if id == ID_OPEN_CONNECTION_REQUEST_1 {
            Ok(OfflinePacket::OpenConnectionRequest1(decode_request_1(s, 1, m)?))
        } else if id == ID_OPEN_CONNECTION_REPLY_1 {
            Ok(OfflinePacket::OpenConnectionReply1(decode_reply_1(s, 1, m)?))
        } else if id == ID_OPEN_CONNECTION_REQUEST_2 {
            Ok(OfflinePacket::OpenConnectionRequest2(decode_request_2(s, 1, m)?))
        } else if id == ID_OPEN_CONNECTION_REPLY_2 {
            Ok(OfflinePacket::OpenConnectionReply2(decode_reply_2(s, 1, m)?))
        } else if id == ID_INCOMPATIBLE_PROTOCOL_VERSION {
            Ok(OfflinePacket::IncompatibleProtocolVersion(decode_incompatible(s, 1, m)?))
        } else if id == ID_CONNECTION_REQUEST_FAILED {
            let (magic, server_guid) = decode_reject_packet(s, 1, m)?;
            Ok(OfflinePacket::ConnectionRequestFailed(ConnectionRequestFailed { server_guid, magic }))
        } else if id == ID_ALREADY_CONNECTED {
            let (magic, server_guid) = decode_reject_packet(s, 1, m)?;
            Ok(OfflinePacket::AlreadyConnected(AlreadyConnected { server_guid, magic }))
        } else if id == ID_NO_FREE_INCOMING_CONNECTIONS {
            let (magic, server_guid) = decode_reject_packet(s, 1, m)?;
            Ok(
                OfflinePacket::NoFreeIncomingConnections(
                    NoFreeIncomingConnections { server_guid, magic },
                ),
            )
        } else if id == ID_CONNECTION_BANNED {
            let (magic, server_guid) = decode_reject_packet(s, 1, m)?;
            Ok(OfflinePacket::ConnectionBanned(ConnectionBanned { server_guid, magic }))
        } else if id == ID_IP_RECENTLY_CONNECTED {
            let (magic, server_guid) = decode_reject_packet(s, 1, m)?;
            Ok(OfflinePacket::IpRecentlyConnected(IpRecentlyConnected { server_guid, magic }))
        } else {
            Err(DecodeError::InvalidOfflinePacketId(id))
        }
    }
}

// ---------------------------------------------------------------------------
// Reading back what was written
// ---------------------------------------------------------------------------

/// The magic a packet carries.
pub open spec fn packet_magic(p: OfflinePacketView) -> Magic {
    match p {
        OfflinePacketView::UnconnectedPing(q) => q.magic,
        OfflinePacketView::UnconnectedPingOpenConnections(q) => q.magic,
        OfflinePacketView::UnconnectedPong(q) => q.magic,
        OfflinePacketView::OpenConnectionRequest1(q) => q.magic,
        OfflinePacketView::OpenConnectionReply1(q) => q.magic,
        OfflinePacketView::OpenConnectionRequest2(q) => q.magic,
        OfflinePacketView::OpenConnectionReply2(q) => q.magic,
        OfflinePacketView::IncompatibleProtocolVersion(q) => q.magic,
        OfflinePacketView::ConnectionRequestFailed(q) => q.magic,
        OfflinePacketView::AlreadyConnected(q) => q.magic,
        OfflinePacketView::NoFreeIncomingConnections(q) => q.magic,
        OfflinePacketView::ConnectionBanned(q) => q.magic,
        OfflinePacketView::IpRecentlyConnected(q) => q.magic,
    }
}

/// What decoding a packet's wire form gives: the packet itself, except that a
/// request 2 comes back with the strict layout it was written in, and without
/// a client proof when it has no cookie (the proof travels only with a cookie).
pub open spec fn offline_decoded_form(p: OfflinePacketView) -> OfflinePacketView {
    match p {
        OfflinePacketView::OpenConnectionRequest2(q) => OfflinePacketView::OpenConnectionRequest2(
            OpenConnectionRequest2 {
                client_proof: q.cookie is Some && q.client_proof,
                parse_path: if q.cookie is Some {
                    Request2ParsePath::StrictWithCookie
                } else {
                    Request2ParsePath::StrictNoCookie
                },
                ..q
            },
        ),
        _ => p,
    }
}

proof fn lemma_expected_magic_at(s: Seq<u8>, p: usize, m: Magic)
    requires
        p + 16 <= s.len(),
        p + 16 <= usize::MAX,
        s.subrange(p as int, p + 16) == m@,
    ensures
        spec_read_expected_magic(s, p, m) == Ok::<(Magic, usize), DecodeError>(
            (m, (p + 16) as usize),
        ),
{
    lemma_read_magic_at(s, p, m);
}

/// The statement of the roundtrip for one packet.
pub open spec fn offline_roundtrips(p: OfflinePacketView) -> bool {
    spec_decode_offline(offline_bytes(p), packet_magic(p)) == Ok::<OfflinePacketView, DecodeError>(
        offline_decoded_form(p),
    )
}

proof fn lemma_ping_roundtrip(p: OfflinePacketView, q: UnconnectedPing)
    requires
        p == OfflinePacketView::UnconnectedPing(q) || p
            == OfflinePacketView::UnconnectedPingOpenConnections(q),
    ensures
        offline_roundtrips(p),
{
    let s = offline_bytes(p);
    assert(s =~= seq![spec_packet_id(p)] + u64_be_bytes(q.ping_time as u64) + q.magic@
        + u64_be_bytes(q.client_guid));
    assert(s.subrange(1, 9) =~= u64_be_bytes(q.ping_time as u64));
    assert(s.subrange(9, 25) =~= q.magic@);
    assert(s.subrange(25, 33) =~= u64_be_bytes(q.client_guid));
    lemma_read_i64_at(s, 1, q.ping_time);
    lemma_expected_magic_at(s, 9, q.magic);
    lemma_read_u64_at(s, 25, q.client_guid);
    assert(spec_decode_ping(s, 1, q.magic) == Ok::<UnconnectedPing, DecodeError>(q));
}

proof fn lemma_pong_roundtrip(p: OfflinePacketView, q: UnconnectedPongView)
    requires
        p == OfflinePacketView::UnconnectedPong(q),
        q.motd.len() <= MAX_UNCONNECTED_PONG_MOTD_BYTES,
    ensures
        offline_roundtrips(p),
{
    let s = offline_bytes(p);
    assert(s =~= seq![spec_packet_id(p)] + u64_be_bytes(q.ping_time as u64) + u64_be_bytes(
        q.server_guid,
    ) + q.magic@ + u16_be_bytes(q.motd.len() as u16) + q.motd);
    assert(s.subrange(1, 9) =~= u64_be_bytes(q.ping_time as u64));
    assert(s.subrange(9, 17) =~= u64_be_bytes(q.server_guid));
    assert(s.subrange(17, 33) =~= q.magic@);
    assert(s.subrange(33, 35) =~= u16_be_bytes(q.motd.len() as u16));
    assert(s.subrange(35, 35 + q.motd.len() as int) =~= q.motd);
    lemma_read_i64_at(s, 1, q.ping_time);
    lemma_read_u64_at(s, 9, q.server_guid);
    lemma_expected_magic_at(s, 17, q.magic);
    lemma_read_u16_at(s, 33, q.motd.len() as u16);
    assert(spec_decode_pong(s, 1, q.magic) == Ok::<UnconnectedPongView, DecodeError>(q));
}

proof fn lemma_request_1_roundtrip(p: OfflinePacketView, q: OpenConnectionRequest1)
    requires
        p == OfflinePacketView::OpenConnectionRequest1(q),
        mtu_in_range(q.mtu),
    ensures
        offline_roundtrips(p),
{
    let s = offline_bytes(p);
    assert(s =~= seq![spec_packet_id(p)] + q.magic@ + seq![q.protocol_version] + zeros(
        (q.mtu - 18) as nat,
    ));
    assert(s.subrange(1, 17) =~= q.magic@);
    assert(s[17] == q.protocol_version);
    lemma_expected_magic_at(s, 1, q.magic);
    lemma_read_u8_at(s, 17, q.protocol_version);
    assert(s.len() - 18 + 18 == q.mtu);
    assert(spec_decode_request_1(s, 1, q.magic) == Ok::<OpenConnectionRequest1, DecodeError>(q));
}

proof fn lemma_reply_1_roundtrip(p: OfflinePacketView, q: OpenConnectionReply1)
    requires
        p == OfflinePacketView::OpenConnectionReply1(q),
    ensures
        offline_roundtrips(p),
{
    let s = offline_bytes(p);
    assert(s =~= seq![spec_packet_id(p)] + q.magic@ + u64_be_bytes(q.server_guid) + bool_bytes(
        q.cookie is Some,
    ) + opt_u32_bytes(q.cookie) + u16_be_bytes(q.mtu));
    assert(s.subrange(1, 17) =~= q.magic@);
    assert(s.subrange(17, 25) =~= u64_be_bytes(q.server_guid));
    assert(s.subrange(25, 26) =~= bool_bytes(q.cookie is Some));
    lemma_expected_magic_at(s, 1, q.magic);
    lemma_read_u64_at(s, 17, q.server_guid);
    lemma_read_bool_at(s, 25, q.cookie is Some);
    match q.cookie {
        Some(c) => {
            assert(s.subrange(26, 30) =~= u32_be_bytes(c));
            assert(s.subrange(30, 32) =~= u16_be_bytes(q.mtu));
            lemma_read_u32_at(s, 26, c);
            lemma_read_u16_at(s, 30, q.mtu);
        },
        None => {
            assert(s.subrange(26, 28) =~= u16_be_bytes(q.mtu));
            lemma_read_u16_at(s, 26, q.mtu);
        },
    }
    assert(spec_decode_reply_1(s, 1, q.magic) == Ok::<OpenConnectionReply1, DecodeError>(q));
}

proof fn lemma_reply_2_fields(s: Seq<u8>, id: u8, q: OpenConnectionReply2)
    requires
        s == seq![id] + q.magic@ + u64_be_bytes(q.server_guid) + addr_bytes(q.server_addr)
            + u16_be_bytes(q.mtu) + bool_bytes(q.use_encryption),
    ensures
        spec_decode_reply_2(s, 1, q.magic) == Ok::<OpenConnectionReply2, DecodeError>(q),
{
    let al = addr_bytes(q.server_addr).len() as int;
    lemma_addr_len(q.server_addr);
    assert(s.subrange(1, 17) =~= q.magic@);
    assert(s.subrange(17, 25) =~= u64_be_bytes(q.server_guid));
    assert(s.subrange(25, 25 + al) =~= addr_bytes(q.server_addr));
    assert(s.subrange(25 + al, 27 + al) =~= u16_be_bytes(q.mtu));
    assert(s.subrange(27 + al, 28 + al) =~= bool_bytes(q.use_encryption));
    lemma_expected_magic_at(s, 1, q.magic);
    lemma_read_u64_at(s, 17, q.server_guid);
    lemma_addr_roundtrip(s, 25, q.server_addr);
    lemma_read_u16_at(s, (25 + al) as usize, q.mtu);
    lemma_read_bool_at(s, (27 + al) as usize, q.use_encryption);
}

proof fn lemma_reply_2_roundtrip(p: OfflinePacketView, q: OpenConnectionReply2)
    requires
        p == OfflinePacketView::OpenConnectionReply2(q),
    ensures
        offline_roundtrips(p),
{
    let s = offline_bytes(p);
    assert(s =~= seq![spec_packet_id(p)] + q.magic@ + u64_be_bytes(q.server_guid) + addr_bytes(
        q.server_addr,
    ) + u16_be_bytes(q.mtu) + bool_bytes(q.use_encryption));
    lemma_reply_2_fields(s, spec_packet_id(p), q);
}

proof fn lemma_incompatible_roundtrip(p: OfflinePacketView, q: IncompatibleProtocolVersion)
    requires
        p == OfflinePacketView::IncompatibleProtocolVersion(q),
    ensures
        offline_roundtrips(p),
{
    let s = offline_bytes(p);
    assert(s =~= seq![spec_packet_id(p)] + seq![q.protocol_version] + q.magic@ + u64_be_bytes(
        q.server_guid,
    ));
    assert(s[1] == q.protocol_version);
    assert(s.subrange(2, 18) =~= q.magic@);
    assert(s.subrange(18, 26) =~= u64_be_bytes(q.server_guid));
    lemma_read_u8_at(s, 1, q.protocol_version);
    lemma_expected_magic_at(s, 2, q.magic);
    lemma_read_u64_at(s, 18, q.server_guid);
    assert(spec_decode_incompatible(s, 1, q.magic) == Ok::<IncompatibleProtocolVersion, DecodeError>(q));
}

proof fn lemma_reject_roundtrip(p: OfflinePacketView, magic: Magic, server_guid: u64)
    requires
        offline_body_bytes(p) == magic@ + u64_be_bytes(server_guid),
        packet_magic(p) == magic,
    ensures
        spec_decode_reject(offline_bytes(p), 1, magic) == Ok::<(Magic, u64), DecodeError>(
            (magic, server_guid),
        ),
{
    let s = offline_bytes(p);
    assert(s =~= seq![spec_packet_id(p)] + magic@ + u64_be_bytes(server_guid));
    assert(s.subrange(1, 17) =~= magic@);
    assert(s.subrange(17, 25) =~= u64_be_bytes(server_guid));
    lemma_expected_magic_at(s, 1, magic);
    lemma_read_u64_at(s, 17, server_guid);
}

/// A layout that fits ends the input after an address and ten more bytes,
/// behind five cookie bytes when it has a cookie.
proof fn lemma_candidate_len(s: Seq<u8>, q: usize, with_cookie: bool, strict_bool: bool)
    requires
        spec_parse_request_2_candidate(s, q, with_cookie, strict_bool) is Ok,
    ensures
        s.len() == q + (if with_cookie {
            5int
        } else {
            0int
        }) + 17 || s.len() == q + (if with_cookie {
            5int
        } else {
            0int
        }) + 39,
{
}

proof fn lemma_addr_len(a: SocketAddr)
    ensures
        addr_bytes(a).len() == 7 || addr_bytes(a).len() == 29,
{
}

proof fn lemma_request_2_cookie_roundtrip(p: OfflinePacketView, q: OpenConnectionRequest2, c: u32)
    requires
        p == OfflinePacketView::OpenConnectionRequest2(q),
        q.cookie == Some(c),
    ensures
        spec_parse_request_2_candidate(offline_bytes(p), 17, false, true) is Err,
        spec_parse_request_2_candidate(offline_bytes(p), 17, true, true) == Ok::<
            Request2Candidate,
            DecodeError,
        >(
            Request2Candidate {
                server_addr: q.server_addr,
                mtu: q.mtu,
                client_guid: q.client_guid,
                cookie: Some(c),
                client_proof: q.client_proof,
            },
        ),
        spec_read_expected_magic(offline_bytes(p), 1, q.magic) == Ok::<(Magic, usize), DecodeError>(
            (q.magic, 17),
        ),
{
    let s = offline_bytes(p);
    let al = addr_bytes(q.server_addr).len() as int;
    lemma_addr_len(q.server_addr);
    assert(s =~= seq![spec_packet_id(p)] + q.magic@ + u32_be_bytes(c) + bool_bytes(q.client_proof)
        + addr_bytes(q.server_addr) + u16_be_bytes(q.mtu) + u64_be_bytes(q.client_guid));
    assert(s.subrange(1, 17) =~= q.magic@);
    lemma_expected_magic_at(s, 1, q.magic);
    assert(s.len() == 17 + 5 + al + 10);
    assert(s.subrange(17, 21) =~= u32_be_bytes(c));
    assert(s.subrange(21, 22) =~= bool_bytes(q.client_proof));
    assert(s[21] == s.subrange(21, 22)[0]);
    assert(s.subrange(22, 22 + al) =~= addr_bytes(q.server_addr));
    assert(s.subrange(22 + al, 24 + al) =~= u16_be_bytes(q.mtu));
    assert(s.subrange(24 + al, 32 + al) =~= u64_be_bytes(q.client_guid));
    lemma_read_u32_at(s, 17, c);
    lemma_addr_roundtrip(s, 22, q.server_addr);
    lemma_read_u16_at(s, (22 + al) as usize, q.mtu);
    lemma_read_u64_at(s, (24 + al) as usize, q.client_guid);
    if spec_parse_request_2_candidate(s, 17, false, true) is Ok {
        lemma_candidate_len(s, 17, false, true);
    }
}

proof fn lemma_request_2_plain_roundtrip(p: OfflinePacketView, q: OpenConnectionRequest2)
    requires
        p == OfflinePacketView::OpenConnectionRequest2(q),
        q.cookie is None,
    ensures
        spec_parse_request_2_candidate(offline_bytes(p), 17, true, true) is Err,
        spec_parse_request_2_candidate(offline_bytes(p), 17, false, true) == Ok::<
            Request2Candidate,
            DecodeError,
        >(
            Request2Candidate {
                server_addr: q.server_addr,
                mtu: q.mtu,
                client_guid: q.client_guid,
                cookie: None,
                client_proof: false,
            },
        ),
        spec_read_expected_magic(offline_bytes(p), 1, q.magic) == Ok::<(Magic, usize), DecodeError>(
            (q.magic, 17),
        ),
{
    let s = offline_bytes(p);
    let al = addr_bytes(q.server_addr).len() as int;
    lemma_addr_len(q.server_addr);
    assert(s =~= seq![spec_packet_id(p)] + q.magic@ + addr_bytes(q.server_addr) + u16_be_bytes(
        q.mtu,
    ) + u64_be_bytes(q.client_guid));
    assert(s.subrange(1, 17) =~= q.magic@);
    lemma_expected_magic_at(s, 1, q.magic);
    assert(s.len() == 17 + al + 10);
    assert(s.subrange(17, 17 + al) =~= addr_bytes(q.server_addr));
    assert(s.subrange(17 + al, 19 + al) =~= u16_be_bytes(q.mtu));
    assert(s.subrange(19 + al, 27 + al) =~= u64_be_bytes(q.client_guid));
    lemma_addr_roundtrip(s, 17, q.server_addr);
    lemma_read_u16_at(s, (17 + al) as usize, q.mtu);
    lemma_read_u64_at(s, (19 + al) as usize, q.client_guid);
    if spec_parse_request_2_candidate(s, 17, true, true) is Ok {
        lemma_candidate_len(s, 17, true, true);
    }
}

proof fn lemma_request_2_roundtrip(p: OfflinePacketView, q: OpenConnectionRequest2)
    requires
        p == OfflinePacketView::OpenConnectionRequest2(q),
    ensures
        offline_roundtrips(p),
{
    let s = offline_bytes(p);
    match q.cookie {
        Some(c) => lemma_request_2_cookie_roundtrip(p, q, c),
        None => lemma_request_2_plain_roundtrip(p, q),
    }
    assert(s[0] == ID_OPEN_CONNECTION_REQUEST_2);
}

/// Decoding, with a packet's own magic, the wire form of a packet that can be
/// encoded gives the packet back (a request 2 as `offline_decoded_form` says).
pub proof fn lemma_offline_roundtrip(p: OfflinePacketView)
    requires
        offline_encode_error(p) is None,
    ensures
        offline_roundtrips(p),
{
    let s = offline_bytes(p);
    assert(s[0] == spec_packet_id(p));
    match p {
        OfflinePacketView::UnconnectedPing(q) => lemma_ping_roundtrip(p, q),
        OfflinePacketView::UnconnectedPingOpenConnections(q) => lemma_ping_roundtrip(p, q),
        OfflinePacketView::UnconnectedPong(q) => lemma_pong_roundtrip(p, q),
        OfflinePacketView::OpenConnectionRequest1(q) => lemma_request_1_roundtrip(p, q),
        OfflinePacketView::OpenConnectionReply1(q) => lemma_reply_1_roundtrip(p, q),
        OfflinePacketView::OpenConnectionRequest2(q) => lemma_request_2_roundtrip(p, q),
        OfflinePacketView::OpenConnectionReply2(q) => lemma_reply_2_roundtrip(p, q),
        OfflinePacketView::IncompatibleProtocolVersion(q) => lemma_incompatible_roundtrip(p, q),
        OfflinePacketView::ConnectionRequestFailed(q) => lemma_reject_roundtrip(
            p,
            q.magic,
            q.server_guid,
        ),
        OfflinePacketView::AlreadyConnected(q) => lemma_reject_roundtrip(p, q.magic, q.server_guid),
        OfflinePacketView::NoFreeIncomingConnections(q) => lemma_reject_roundtrip(
            p,
            q.magic,
            q.server_guid,
        ),
        OfflinePacketView::ConnectionBanned(q) => lemma_reject_roundtrip(p, q.magic, q.server_guid),
        OfflinePacketView::IpRecentlyConnected(q) => lemma_reject_roundtrip(
            p,
            q.magic,
            q.server_guid,
        ),
    }
}

/// Bytes that decode under one magic fail with `InvalidMagic` under any other:
/// every field before the magic reads the same, and the magic read then
/// differs from the one expected.
proof fn lemma_decode_other_magic(s: Seq<u8>, own: Magic, m: Magic)
    requires
        spec_decode_offline(s, own) is Ok,
        own != m,
    ensures
        spec_decode_offline(s, m) == Err::<OfflinePacketView, DecodeError>(DecodeError::InvalidMagic),
{
    let id = s[0];
    if id == ID_UNCONNECTED_PING || id == ID_UNCONNECTED_PING_OPEN_CONNECTIONS {
        assert(spec_decode_ping(s, 1, own) is Ok);
    } else if id == ID_UNCONNECTED_PONG {
        assert(spec_decode_pong(s, 1, own) is Ok);
    } else if id == ID_OPEN_CONNECTION_REQUEST_1 {
        assert(spec_decode_request_1(s, 1, own) is Ok);
    } else if id == ID_OPEN_CONNECTION_REPLY_1 {
        assert(spec_decode_reply_1(s, 1, own) is Ok);
    } else if id == ID_OPEN_CONNECTION_REQUEST_2 {
        assert(spec_decode_request_2(s, 1, own) is Ok);
    } else if id == ID_OPEN_CONNECTION_REPLY_2 {
        assert(spec_decode_reply_2(s, 1, own) is Ok);
    } else if id == ID_INCOMPATIBLE_PROTOCOL_VERSION {
        assert(spec_decode_incompatible(s, 1, own) is Ok);
    } else {
        assert(spec_decode_reject(s, 1, own) is Ok);
    }
}

/// Decoding the wire form of a packet that can be encoded, expecting a magic
/// other than the packet's, fails with `InvalidMagic`.
pub proof fn lemma_offline_foreign_magic(p: OfflinePacketView, m: Magic)
    requires
        offline_encode_error(p) is None,
        packet_magic(p) != m,
    ensures
        spec_decode_offline(offline_bytes(p), m) == Err::<OfflinePacketView, DecodeError>(
            DecodeError::InvalidMagic,
        ),
{
    lemma_offline_roundtrip(p);
    lemma_decode_other_magic(offline_bytes(p), packet_magic(p), m);
}

/// The wire form of each offline packet, field by field: the identifier
/// byte, then the fields in the order RakNet lays them out, integers big
/// endian, the magic as its sixteen bytes.
pub proof fn lemma_offline_wire_layout(p: OfflinePacketView)
    ensures
        p matches OfflinePacketView::UnconnectedPing(q) ==> offline_bytes(p) == seq![0x01u8] + u64_be_bytes(
            q.ping_time as u64,
        ) + q.magic@ + u64_be_bytes(q.client_guid),
        p matches OfflinePacketView::UnconnectedPingOpenConnections(q) ==> offline_bytes(p) == seq![0x02u8]
            + u64_be_bytes(q.ping_time as u64) + q.magic@ + u64_be_bytes(q.client_guid),
        p matches OfflinePacketView::UnconnectedPong(q) ==> offline_bytes(p) == seq![0x1cu8] + u64_be_bytes(
            q.ping_time as u64,
        ) + u64_be_bytes(q.server_guid) + q.magic@ + u16_be_bytes(q.motd.len() as u16) + q.motd,
        p matches OfflinePacketView::OpenConnectionRequest1(q) ==> offline_bytes(p) == seq![0x05u8] + q.magic@
            + seq![q.protocol_version] + Seq::new(
            if q.mtu >= 18 {
                (q.mtu - 18) as nat
            } else {
                0
            },
            |i: int| 0u8,
        ),
        p matches OfflinePacketView::OpenConnectionReply1(q) ==> offline_bytes(p) == seq![0x06u8] + q.magic@
            + u64_be_bytes(q.server_guid) + (match q.cookie {
            Some(c) => seq![1u8] + u32_be_bytes(c),
            None => seq![0u8],
        }) + u16_be_bytes(q.mtu),
        p matches OfflinePacketView::OpenConnectionRequest2(q) ==> offline_bytes(p) == seq![0x07u8] + q.magic@
            + (match q.cookie {
            Some(c) => u32_be_bytes(c) + seq![if q.client_proof { 1u8 } else { 0u8 }],
            None => Seq::empty(),
        }) + addr_bytes(q.server_addr) + u16_be_bytes(q.mtu) + u64_be_bytes(q.client_guid),
        p matches OfflinePacketView::OpenConnectionReply2(q) ==> offline_bytes(p) == seq![0x08u8] + q.magic@
            + u64_be_bytes(q.server_guid) + addr_bytes(q.server_addr) + u16_be_bytes(q.mtu) + seq![
            if q.use_encryption { 1u8 } else { 0u8 },
        ],
        p matches OfflinePacketView::IncompatibleProtocolVersion(q) ==> offline_bytes(p) == seq![0x19u8, q.protocol_version]
            + q.magic@ + u64_be_bytes(q.server_guid),
        p matches OfflinePacketView::ConnectionRequestFailed(q) ==> offline_bytes(p) == seq![0x11u8] + q.magic@
            + u64_be_bytes(q.server_guid),
        p matches OfflinePacketView::AlreadyConnected(q) ==> offline_bytes(p) == seq![0x12u8] + q.magic@
            + u64_be_bytes(q.server_guid),
        p matches OfflinePacketView::NoFreeIncomingConnections(q) ==> offline_bytes(p) == seq![0x14u8]
            + q.magic@ + u64_be_bytes(q.server_guid),
        p matches OfflinePacketView::ConnectionBanned(q) ==> offline_bytes(p) == seq![0x17u8] + q.magic@
            + u64_be_bytes(q.server_guid),
        p matches OfflinePacketView::IpRecentlyConnected(q) ==> offline_bytes(p) == seq![0x1au8] + q.magic@
            + u64_be_bytes(q.server_guid),
{
    match p {
        OfflinePacketView::OpenConnectionRequest1(q) => {
            let n: nat = if q.mtu >= 18 {
                (q.mtu - 18) as nat
            } else {
                0
            };
            assert(zeros(n) =~= Seq::new(n, |i: int| 0u8));
        },
        OfflinePacketView::OpenConnectionReply1(q) => {
            match q.cookie {
                Some(c) => assert(bool_bytes(true) + opt_u32_bytes(q.cookie) =~= seq![1u8] + u32_be_bytes(c)),
                None => assert(bool_bytes(false) + opt_u32_bytes(q.cookie) =~= seq![0u8]),
            }
        },
        OfflinePacketView::IncompatibleProtocolVersion(q) => {
            assert(seq![0x19u8] + (seq![q.protocol_version] + q.magic@ + u64_be_bytes(q.server_guid)) =~= seq![
                0x19u8,
                q.protocol_version,
            ] + q.magic@ + u64_be_bytes(q.server_guid));
        },
        _ => {},
    }
}

/// Where each field of a pong sits in its wire form: the identifier 0x1c at
/// byte 0, the ping time at bytes 1 to 8, the server guid at 9 to 16, the
/// magic at 17 to 32, the motd's length at 33 and 34, and the motd from 35
/// to the end.
pub proof fn lemma_pong_field_positions(q: UnconnectedPongView)
    ensures
        ({
            let b = offline_bytes(OfflinePacketView::UnconnectedPong(q));
            &&& b.len() == 35 + q.motd.len()
            &&& b[0] == 0x1cu8
            &&& b.subrange(1, 9) == u64_be_bytes(q.ping_time as u64)
            &&& b.subrange(9, 17) == u64_be_bytes(q.server_guid)
            &&& b.subrange(17, 33) == q.magic@
            &&& b.subrange(33, 35) == u16_be_bytes(q.motd.len() as u16)
            &&& b.subrange(35, b.len() as int) == q.motd
        }),
{
    let b = offline_bytes(OfflinePacketView::UnconnectedPong(q));
    lemma_offline_wire_layout(OfflinePacketView::UnconnectedPong(q));
    assert(q.magic@.len() == 16);
    assert(b.subrange(1, 9) =~= u64_be_bytes(q.ping_time as u64));
    assert(b.subrange(9, 17) =~= u64_be_bytes(q.server_guid));
    assert(b.subrange(17, 33) =~= q.magic@);
    assert(b.subrange(33, 35) =~= u16_be_bytes(q.motd.len() as u16));
    assert(b.subrange(35, b.len() as int) =~= q.motd);
}

/// An open-connection request 1 carries its MTU in its length: after the
/// identifier, the magic and the protocol version, whatever follows is
/// padding, and the MTU read is the padding's length plus 18 (taken as 16
/// bits), whatever the padding holds.
pub proof fn lemma_request_1_mtu_from_length(m: Magic, protocol_version: u8, padding: Seq<u8>)
    requires
        18 + padding.len() <= usize::MAX,
    ensures
        spec_decode_offline(seq![0x05u8] + m@ + seq![protocol_version] + padding, m) == Ok::<
            OfflinePacketView,
            DecodeError,
        >(
            OfflinePacketView::OpenConnectionRequest1(
                OpenConnectionRequest1 {
                    protocol_version,
                    mtu: (padding.len() + 18) as u16,
                    magic: m,
                },
            ),
        ),
{
    let s = seq![0x05u8] + m@ + seq![protocol_version] + padding;
    assert(m@.len() == 16);
    assert(s.subrange(1, 17) =~= m@);
    lemma_expected_magic_at(s, 1, m);
    assert(s[17] == protocol_version);
    lemma_read_u8_at(s, 17, protocol_version);
    assert(s.len() - 18 == padding.len());
}

/// Decoding reads the packet kind from the first byte: nothing to read is an
/// early end; a byte that names no offline packet is refused with that byte;
/// and a decoded packet is of the kind its first byte names.
pub proof fn lemma_offline_decode_kind(s: Seq<u8>, m: Magic)
    ensures
        s.len() == 0 ==> spec_decode_offline(s, m) == Err::<OfflinePacketView, DecodeError>(
            DecodeError::UnexpectedEof,
        ),
        s.len() > 0 && !(s[0] == 0x01u8 || s[0] == 0x02u8 || s[0] == 0x05u8 || s[0] == 0x06u8 || s[0]
            == 0x07u8 || s[0] == 0x08u8 || s[0] == 0x11u8 || s[0] == 0x12u8 || s[0] == 0x14u8 || s[0]
            == 0x17u8 || s[0] == 0x19u8 || s[0] == 0x1au8 || s[0] == 0x1cu8) ==> spec_decode_offline(s, m)
            == Err::<OfflinePacketView, DecodeError>(DecodeError::InvalidOfflinePacketId(s[0])),
        spec_decode_offline(s, m) matches Ok(p) ==> s.len() > 0 && (match p {
            OfflinePacketView::UnconnectedPing(_) => s[0] == 0x01u8,
            OfflinePacketView::UnconnectedPingOpenConnections(_) => s[0] == 0x02u8,
            OfflinePacketView::UnconnectedPong(_) => s[0] == 0x1cu8,
            OfflinePacketView::OpenConnectionRequest1(_) => s[0] == 0x05u8,
            OfflinePacketView::OpenConnectionReply1(_) => s[0] == 0x06u8,
            OfflinePacketView::OpenConnectionRequest2(_) => s[0] == 0x07u8,
            OfflinePacketView::OpenConnectionReply2(_) => s[0] == 0x08u8,
            OfflinePacketView::IncompatibleProtocolVersion(_) => s[0] == 0x19u8,
            OfflinePacketView::ConnectionRequestFailed(_) => s[0] == 0x11u8,
            OfflinePacketView::AlreadyConnected(_) => s[0] == 0x12u8,
            OfflinePacketView::NoFreeIncomingConnections(_) => s[0] == 0x14u8,
            OfflinePacketView::ConnectionBanned(_) => s[0] == 0x17u8,
            OfflinePacketView::IpRecentlyConnected(_) => s[0] == 0x1au8,
        }),
{
}

/// How a request 2's body is read. It is tried strictly both without and
/// with a cookie. When exactly one fits, that one is taken. When both fit,
/// the one without a cookie is taken if the body starts with an address
/// family byte (4 or 6), and the one with a cookie otherwise. When neither
/// fits, it is read leniently, with a cookie exactly when the body starts with
/// another byte. The path taken is recorded with the fields read.
pub proof fn lemma_request_2_layout_choice(m: Magic, body: Seq<u8>)
    requires
        17 + body.len() <= usize::MAX,
    ensures
        ({
            let s = seq![0x07u8] + m@ + body;
            let plain = spec_parse_request_2_candidate(s, 17, false, true);
            let cookie = spec_parse_request_2_candidate(s, 17, true, true);
            let family = body.len() > 0 && (body[0] == 4u8 || body[0] == 6u8);
            let read = |c: Request2Candidate, path: Request2ParsePath|
                Ok::<OfflinePacketView, DecodeError>(
                    OfflinePacketView::OpenConnectionRequest2(
                        OpenConnectionRequest2 {
                            server_addr: c.server_addr,
                            mtu: c.mtu,
                            client_guid: c.client_guid,
                            cookie: c.cookie,
                            client_proof: c.client_proof,
                            parse_path: path,
                            magic: m,
                        },
                    ),
                );
            &&& plain is Ok && cookie is Err ==> spec_decode_offline(s, m) == read(
                plain->Ok_0,
                Request2ParsePath::StrictNoCookie,
            )
            &&& plain is Err && cookie is Ok ==> spec_decode_offline(s, m) == read(
                cookie->Ok_0,
                Request2ParsePath::StrictWithCookie,
            )
            &&& plain is Ok && cookie is Ok && family ==> spec_decode_offline(s, m) == read(
                plain->Ok_0,
                Request2ParsePath::AmbiguousPreferredNoCookie,
            )
            &&& plain is Ok && cookie is Ok && !family ==> spec_decode_offline(s, m) == read(
                cookie->Ok_0,
                Request2ParsePath::AmbiguousPreferredWithCookie,
            )
            &&& plain is Err && cookie is Err ==> match spec_parse_request_2_candidate(
                s,
                17,
                body.len() > 0 && !family,
                false,
            ) {
                Ok(c) => spec_decode_offline(s, m) == read(c, Request2ParsePath::LegacyHeuristic),
                Err(e) => spec_decode_offline(s, m) == Err::<OfflinePacketView, DecodeError>(e),
            }
        }),
{
    let s = seq![0x07u8] + m@ + body;
    assert(m@.len() == 16);
    assert(s.subrange(1, 17) =~= m@);
    lemma_expected_magic_at(s, 1, m);
    assert(body.len() > 0 ==> s[17] == body[0]);
    assert(starts_with_family(s, 17) == (body.len() > 0 && (body[0] == 4u8 || body[0] == 6u8)));
}

} // verus!
