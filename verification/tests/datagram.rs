use mcbe_raknet_rs::error::{DecodeError, EncodeError};
use mcbe_raknet_rs::protocol::ack::{AckNackPayload, SequenceRange};
use mcbe_raknet_rs::protocol::constants::DatagramFlags;
use mcbe_raknet_rs::protocol::datagram::{
    decode_datagram_flags, validate_flags_for_payload, Datagram, DatagramHeader, DatagramKind,
    DatagramPayload,
};
use mcbe_raknet_rs::protocol::frame::{Frame, FrameHeader, SplitInfo};
use mcbe_raknet_rs::protocol::reliability::Reliability;
use mcbe_raknet_rs::protocol::sequence24::Sequence24;

fn sample_ack_payload() -> AckNackPayload {
    AckNackPayload {
        ranges: vec![SequenceRange { start: Sequence24::new(7), end: Sequence24::new(7) }],
    }
}

fn unreliable_frame(payload: &'static [u8]) -> Frame {
    Frame {
        header: FrameHeader { reliability: Reliability::Unreliable, is_split: false, needs_bas: false },
        bit_length: (payload.len() as u16) << 3,
        reliable_index: None,
        sequence_index: None,
        ordering_index: None,
        ordering_channel: None,
        split: None,
        payload: bytes::Bytes::from_static(payload),
    }
}

#[test]
fn decode_accepts_roblox_datagram_0x83() {
    let src = &b"\x83\x00\x00\x00"[..];
    let result = Datagram::decode(src);
    assert!(result.is_ok(), "0x83 should be accepted as data datagram");
}

#[test]
fn decode_rejects_no_high_bit() {
    let src = &b"\x40\0\0"[..];
    let err = Datagram::decode(src).expect_err("no high bit must be rejected");
    assert!(matches!(err, DecodeError::InvalidDatagramFlags(0x40)));
}

#[test]
fn decode_accepts_valid_ack_flags() {
    let payload = sample_ack_payload();
    let mut encoded = Vec::new();
    payload.encode(&mut encoded).expect("ack payload encode");

    let mut src = vec![0xC0];
    src.extend(encoded);
    let decoded = Datagram::decode(src.as_slice()).expect("ack datagram should decode");

    match decoded.payload {
        DatagramPayload::Ack(decoded_payload) => assert_eq!(decoded_payload, payload),
        other => panic!("unexpected payload: {other:?}"),
    }
}

// Own scenarios.

#[test]
fn flag_byte_kinds() {
    assert!(matches!(decode_datagram_flags(0xC0), Ok((_, DatagramKind::Ack))));
    assert!(matches!(decode_datagram_flags(0xD0), Ok((_, DatagramKind::Ack))));
    assert!(matches!(decode_datagram_flags(0xA0), Ok((_, DatagramKind::Nack))));
    assert!(matches!(decode_datagram_flags(0x84), Ok((_, DatagramKind::Data))));
    assert_eq!(decode_datagram_flags(0x00).unwrap_err(), DecodeError::InvalidDatagramFlags(0));
}

#[test]
fn flags_must_match_payload_kind() {
    let ack = DatagramPayload::Ack(sample_ack_payload());
    assert!(validate_flags_for_payload(DatagramFlags::from_bits_truncate(0xC0), &ack).is_ok());
    assert_eq!(
        validate_flags_for_payload(DatagramFlags::from_bits_truncate(0x84), &ack),
        Err(EncodeError::InvalidDatagramFlags(0x84))
    );
    assert_eq!(
        validate_flags_for_payload(DatagramFlags::from_bits_truncate(0x40), &ack),
        Err(EncodeError::InvalidDatagramFlags(0x40))
    );
}

#[test]
fn data_datagram_roundtrip_and_size() {
    let datagram = Datagram {
        header: DatagramHeader {
            flags: DatagramFlags::from_bits_truncate(0x84),
            sequence: Sequence24::new(0x010203),
        },
        payload: DatagramPayload::Frames(vec![unreliable_frame(b"hi"), unreliable_frame(b"there")]),
    };
    let mut out = Vec::new();
    datagram.encode(&mut out).unwrap();
    assert_eq!(out.len(), datagram.encoded_size());
    // flags, then the sequence number little endian
    assert_eq!(&out[..4], &[0x84, 0x03, 0x02, 0x01]);
    // an unreliable frame: header byte, length in bits, payload
    assert_eq!(&out[4..9], &[0x00, 0x00, 0x10, b'h', b'i']);
    let decoded = Datagram::decode(&out).unwrap();
    assert_eq!(decoded.header.sequence.value(), 0x010203);
    match decoded.payload {
        DatagramPayload::Frames(frames) => {
            assert_eq!(frames.len(), 2);
            assert_eq!(&frames[1].payload[..], b"there");
        }
        other => panic!("unexpected payload: {other:?}"),
    }
}

#[test]
fn split_frame_roundtrip() {
    let frame = Frame {
        header: FrameHeader { reliability: Reliability::Reliable, is_split: true, needs_bas: false },
        bit_length: 3 << 3,
        reliable_index: Some(Sequence24::new(5)),
        sequence_index: None,
        ordering_index: None,
        ordering_channel: None,
        split: Some(SplitInfo { part_count: 2, part_id: 9, part_index: 1 }),
        payload: bytes::Bytes::from_static(b"abc"),
    };
    let mut out = Vec::new();
    frame.encode(&mut out).unwrap();
    assert_eq!(out.len(), frame.encoded_size());
    let (decoded, used) = Frame::decode(&out, 0).unwrap();
    assert_eq!(used, out.len());
    assert_eq!(decoded.split, Some(SplitInfo { part_count: 2, part_id: 9, part_index: 1 }));
    assert_eq!(decoded.reliable_index.map(|s| s.value()), Some(5));
    assert_eq!(&decoded.payload[..], b"abc");
}

#[test]
fn reliable_frame_without_index_is_not_encoded() {
    let mut frame = unreliable_frame(b"x");
    frame.header.reliability = Reliability::Reliable;
    let mut out = Vec::new();
    assert_eq!(frame.encode(&mut out), Err(EncodeError::FrameFieldMissing));
}

#[test]
fn truncated_frame_is_rejected() {
    // data datagram header, then a frame that announces 16 bits but carries one byte
    let src = [0x84, 0, 0, 0, 0x00, 0x00, 0x10, b'a'];
    assert_eq!(Datagram::decode(&src).unwrap_err(), DecodeError::UnexpectedEof);
}

#[test]
fn ack_payload_roundtrip_with_range() {
    let payload = AckNackPayload {
        ranges: vec![
            SequenceRange { start: Sequence24::new(1), end: Sequence24::new(4) },
            SequenceRange { start: Sequence24::new(9), end: Sequence24::new(9) },
        ],
    };
    let mut out = Vec::new();
    payload.encode(&mut out).unwrap();
    assert_eq!(out.len(), payload.encoded_size());
    let (decoded, used) = AckNackPayload::decode(&out, 0).unwrap();
    assert_eq!(used, out.len());
    assert_eq!(decoded, payload);
}

#[test]
fn failing_frame_leaves_header_and_earlier_frames_written() {
    let mut bad = unreliable_frame(b"zz");
    bad.header.reliability = Reliability::Reliable;
    let datagram = Datagram {
        header: DatagramHeader {
            flags: DatagramFlags::from_bits_truncate(0x84),
            sequence: Sequence24::new(1),
        },
        payload: DatagramPayload::Frames(vec![unreliable_frame(b"ok"), bad]),
    };
    let mut out = Vec::new();
    assert_eq!(datagram.encode(&mut out), Err(EncodeError::FrameFieldMissing));
    assert_eq!(out, vec![0x84, 0x01, 0x00, 0x00, 0x00, 0x00, 0x10, b'o', b'k']);
}

#[test]
fn mismatched_flags_write_nothing() {
    let datagram = Datagram {
        header: DatagramHeader {
            flags: DatagramFlags::from_bits_truncate(0xC0),
            sequence: Sequence24::new(1),
        },
        payload: DatagramPayload::Frames(vec![unreliable_frame(b"ok")]),
    };
    let mut out = Vec::new();
    assert_eq!(datagram.encode(&mut out), Err(EncodeError::InvalidDatagramFlags(0xC0)));
    assert!(out.is_empty());
}
