use mcbe_raknet_rs::error::{DecodeError, EncodeError};
use mcbe_raknet_rs::handshake::{
    validate_unconnected_pong_motd_len, ConnectionBanned, NoFreeIncomingConnections, OfflinePacket,
    OpenConnectionRequest1, OpenConnectionRequest2, Request2ParsePath, UnconnectedPing,
    UnconnectedPong, MAX_UNCONNECTED_PONG_MOTD_BYTES,
};
use mcbe_raknet_rs::net::SocketAddr;
use mcbe_raknet_rs::protocol::constants::DEFAULT_UNCONNECTED_MAGIC;

fn roundtrip(packet: OfflinePacket) -> OfflinePacket {
    let mut buf = Vec::new();
    packet.encode(&mut buf).expect("encode must succeed");
    OfflinePacket::decode(&buf).expect("decode must succeed")
}

#[test]
fn no_free_incoming_connections_roundtrip() {
    let packet = OfflinePacket::NoFreeIncomingConnections(NoFreeIncomingConnections {
        server_guid: 0xAA11_BB22_CC33_DD44,
        magic: DEFAULT_UNCONNECTED_MAGIC,
    });
    let decoded = roundtrip(packet);
    match decoded {
        OfflinePacket::NoFreeIncomingConnections(p) => {
            assert_eq!(p.server_guid, 0xAA11_BB22_CC33_DD44);
            assert_eq!(p.magic, DEFAULT_UNCONNECTED_MAGIC);
        }
        _ => panic!("unexpected packet variant"),
    }
}

#[test]
fn connection_banned_roundtrip() {
    let packet = OfflinePacket::ConnectionBanned(ConnectionBanned {
        server_guid: 0x1020_3040_5060_7080,
        magic: DEFAULT_UNCONNECTED_MAGIC,
    });
    let decoded = roundtrip(packet);
    match decoded {
        OfflinePacket::ConnectionBanned(p) => {
            assert_eq!(p.server_guid, 0x1020_3040_5060_7080);
            assert_eq!(p.magic, DEFAULT_UNCONNECTED_MAGIC);
        }
        _ => panic!("unexpected packet variant"),
    }
}

#[test]
fn open_connection_request2_without_cookie_prefers_strict_no_cookie_path() {
    let packet = OfflinePacket::OpenConnectionRequest2(OpenConnectionRequest2 {
        server_addr: SocketAddr::v4(127, 0, 0, 1, 19132),
        mtu: 1400,
        client_guid: 0x11_22_33_44_55_66_77_88,
        cookie: None,
        client_proof: false,
        parse_path: Request2ParsePath::StrictNoCookie,
        magic: DEFAULT_UNCONNECTED_MAGIC,
    });
    let decoded = roundtrip(packet);
    match decoded {
        OfflinePacket::OpenConnectionRequest2(p) => {
            assert_eq!(p.cookie, None);
            assert_eq!(p.parse_path, Request2ParsePath::StrictNoCookie);
        }
        _ => panic!("unexpected packet variant"),
    }
}

#[test]
fn open_connection_request2_with_cookie_prefers_strict_cookie_path() {
    let packet = OfflinePacket::OpenConnectionRequest2(OpenConnectionRequest2 {
        server_addr: SocketAddr::v4(127, 0, 0, 1, 19132),
        mtu: 1400,
        client_guid: 0x88_77_66_55_44_33_22_11,
        cookie: Some(0xAABB_CCDD),
        client_proof: true,
        parse_path: Request2ParsePath::StrictWithCookie,
        magic: DEFAULT_UNCONNECTED_MAGIC,
    });
    let decoded = roundtrip(packet);
    match decoded {
        OfflinePacket::OpenConnectionRequest2(p) => {
            assert_eq!(p.cookie, Some(0xAABB_CCDD));
            assert!(p.client_proof);
            assert_eq!(p.parse_path, Request2ParsePath::StrictWithCookie);
        }
        _ => panic!("unexpected packet variant"),
    }
}

#[test]
fn open_connection_request2_legacy_fallback_accepts_non_boolean_proof_byte() {
    let packet = OfflinePacket::OpenConnectionRequest2(OpenConnectionRequest2 {
        server_addr: SocketAddr::v4(127, 0, 0, 1, 19132),
        mtu: 1400,
        client_guid: 0xAB_CD_EF_01_23_45_67_89,
        cookie: Some(0xAABB_CCDD),
        client_proof: true,
        parse_path: Request2ParsePath::StrictWithCookie,
        magic: DEFAULT_UNCONNECTED_MAGIC,
    });
    let mut buf = Vec::new();
    packet.encode(&mut buf).expect("encode must succeed");

    let proof_idx = 1 + 16 + 4;
    buf[proof_idx] = 2;

    let decoded = OfflinePacket::decode(&buf).expect("decode must succeed");
    match decoded {
        OfflinePacket::OpenConnectionRequest2(p) => {
            assert_eq!(p.parse_path, Request2ParsePath::LegacyHeuristic);
            assert_eq!(p.cookie, Some(0xAABB_CCDD));
            assert!(!p.client_proof);
        }
        _ => panic!("unexpected packet variant"),
    }
}

#[test]
fn unconnected_pong_encode_rejects_oversized_motd() {
    let oversized = vec![b'a'; MAX_UNCONNECTED_PONG_MOTD_BYTES + 1];
    let packet = OfflinePacket::UnconnectedPong(UnconnectedPong {
        ping_time: 1,
        server_guid: 2,
        magic: DEFAULT_UNCONNECTED_MAGIC,
        motd: oversized.into(),
    });
    let mut buf = Vec::new();
    let err = packet.encode(&mut buf).expect_err("oversized motd must be rejected");
    assert!(matches!(err, EncodeError::OfflinePongMotdTooLong(_)));
}

#[test]
fn decode_with_custom_magic_accepts_matching_packet() {
    let custom_magic = [
        0x13, 0x57, 0x9B, 0xDF, 0x24, 0x68, 0xAC, 0xF0, 0x10, 0x32, 0x54, 0x76, 0x98, 0xBA, 0xDC,
        0xFE,
    ];
    let packet = OfflinePacket::OpenConnectionRequest1(OpenConnectionRequest1 {
        protocol_version: 10,
        mtu: 1400,
        magic: custom_magic,
    });
    let mut buf = Vec::new();
    packet.encode(&mut buf).expect("encode must succeed");

    let decoded = OfflinePacket::decode_with_magic(&buf, custom_magic)
        .expect("decode must accept matching custom magic");
    match decoded {
        OfflinePacket::OpenConnectionRequest1(req1) => {
            assert_eq!(req1.magic, custom_magic);
            assert_eq!(req1.mtu, 1400);
        }
        _ => panic!("unexpected packet variant"),
    }
}

#[test]
fn decode_with_custom_magic_rejects_mismatch() {
    let packet_magic = [
        0x13, 0x57, 0x9B, 0xDF, 0x24, 0x68, 0xAC, 0xF0, 0x10, 0x32, 0x54, 0x76, 0x98, 0xBA, 0xDC,
        0xFE,
    ];
    let expected_magic = [
        0x00, 0x11, 0x22, 0x33, 0x44, 0x55, 0x66, 0x77, 0x88, 0x99, 0xAA, 0xBB, 0xCC, 0xDD, 0xEE,
        0xFF,
    ];
    let packet = OfflinePacket::OpenConnectionRequest1(OpenConnectionRequest1 {
        protocol_version: 10,
        mtu: 1400,
        magic: packet_magic,
    });
    let mut buf = Vec::new();
    packet.encode(&mut buf).expect("encode must succeed");

    let err = OfflinePacket::decode_with_magic(&buf, expected_magic)
        .expect_err("decode must reject mismatched magic");
    assert!(matches!(err, DecodeError::InvalidMagic));
}

// Own scenarios.

#[test]
fn unconnected_ping_has_its_wire_layout() {
    let packet = OfflinePacket::UnconnectedPing(UnconnectedPing {
        ping_time: 0x0102_0304_0506_0708,
        client_guid: 0x1112_1314_1516_1718,
        magic: DEFAULT_UNCONNECTED_MAGIC,
    });
    assert_eq!(packet.id(), 0x01);
    let mut buf = Vec::new();
    packet.encode(&mut buf).unwrap();
    assert_eq!(buf.len(), 1 + 8 + 16 + 8);
    assert_eq!(buf[0], 0x01);
    assert_eq!(&buf[1..9], &[1, 2, 3, 4, 5, 6, 7, 8]);
    assert_eq!(&buf[9..25], &DEFAULT_UNCONNECTED_MAGIC);
    assert_eq!(&buf[25..33], &[0x11, 0x12, 0x13, 0x14, 0x15, 0x16, 0x17, 0x18]);
}

#[test]
fn pong_roundtrip_keeps_motd() {
    let packet = OfflinePacket::UnconnectedPong(UnconnectedPong {
        ping_time: -5,
        server_guid: 77,
        magic: DEFAULT_UNCONNECTED_MAGIC,
        motd: bytes::Bytes::from_static(b"MCPE;Dedicated Server;"),
    });
    match roundtrip(packet) {
        OfflinePacket::UnconnectedPong(p) => {
            assert_eq!(p.ping_time, -5);
            assert_eq!(p.server_guid, 77);
            assert_eq!(&p.motd[..], b"MCPE;Dedicated Server;");
        }
        _ => panic!("unexpected packet variant"),
    }
}

#[test]
fn motd_length_limit() {
    assert!(validate_unconnected_pong_motd_len(MAX_UNCONNECTED_PONG_MOTD_BYTES).is_ok());
    assert_eq!(
        validate_unconnected_pong_motd_len(MAX_UNCONNECTED_PONG_MOTD_BYTES + 1),
        Err(EncodeError::OfflinePongMotdTooLong(MAX_UNCONNECTED_PONG_MOTD_BYTES + 1))
    );
}

#[test]
fn decode_rejects_unknown_id_and_short_input() {
    assert!(matches!(OfflinePacket::decode(&[0x42]), Err(DecodeError::InvalidOfflinePacketId(0x42))));
    assert!(matches!(OfflinePacket::decode(&[]), Err(DecodeError::UnexpectedEof)));
    assert!(matches!(OfflinePacket::decode(&[0x05, 0x00]), Err(DecodeError::UnexpectedEof)));
}

#[test]
fn request1_with_out_of_range_mtu_fails_after_its_id() {
    let packet = OfflinePacket::OpenConnectionRequest1(OpenConnectionRequest1 {
        protocol_version: 11,
        mtu: 100,
        magic: DEFAULT_UNCONNECTED_MAGIC,
    });
    let mut buf = Vec::new();
    assert!(matches!(packet.encode(&mut buf), Err(EncodeError::InvalidMtu(100))));
    assert_eq!(buf, vec![0x05]);
}
