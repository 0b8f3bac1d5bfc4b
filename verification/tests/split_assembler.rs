use mcbe_raknet_rs::error::DecodeError;
use mcbe_raknet_rs::protocol::frame::{Frame, FrameHeader, SplitInfo};
use mcbe_raknet_rs::protocol::reliability::Reliability;
use mcbe_raknet_rs::protocol::sequence24::Sequence24;
use mcbe_raknet_rs::session::split_assembler::SplitAssembler;
use mcbe_raknet_rs::time::{Duration, Instant};

fn part(part_id: u16, part_count: u32, part_index: u32, payload: &'static [u8]) -> Frame {
    Frame {
        header: FrameHeader { reliability: Reliability::ReliableOrdered, is_split: true, needs_bas: true },
        bit_length: (payload.len() as u16) << 3,
        reliable_index: Some(Sequence24::new(part_index)),
        sequence_index: None,
        ordering_index: Some(Sequence24::new(4)),
        ordering_channel: Some(2),
        split: Some(SplitInfo { part_count, part_id, part_index }),
        payload: bytes::Bytes::from_static(payload),
    }
}

fn assembler() -> SplitAssembler {
    SplitAssembler::new(Duration::from_secs(30), 8, 2)
}

#[test]
fn unsplit_frame_passes_through() {
    let mut a = assembler();
    let mut f = part(1, 1, 0, b"whole");
    f.header.is_split = false;
    f.split = None;
    let out = a.add(f, Instant::from_nanos(0)).unwrap().unwrap();
    assert_eq!(&out.payload[..], b"whole");
}

#[test]
fn parts_in_any_order_join_in_index_order() {
    let mut a = assembler();
    let now = Instant::from_nanos(5);
    assert!(a.add(part(7, 3, 2, b"ghi"), now).unwrap().is_none());
    assert!(a.add(part(7, 3, 0, b"abc"), now).unwrap().is_none());
    // a part that already arrived is ignored
    assert!(a.add(part(7, 3, 0, b"xxx"), now).unwrap().is_none());
    let joined = a.add(part(7, 3, 1, b"def"), now).unwrap().unwrap();
    assert_eq!(&joined.payload[..], b"abcdefghi");
    assert_eq!(joined.bit_length, 9 << 3);
    assert!(!joined.header.is_split);
    assert!(joined.header.needs_bas);
    assert_eq!(joined.header.reliability, Reliability::ReliableOrdered);
    assert_eq!(joined.split, None);
    // the first part to arrive gave the indices
    assert_eq!(joined.reliable_index.map(|s| s.value()), Some(2));
    assert_eq!(joined.ordering_channel, Some(2));
}

#[test]
fn malformed_parts_are_rejected() {
    let mut a = assembler();
    let now = Instant::from_nanos(0);
    let mut missing = part(1, 2, 0, b"a");
    missing.split = None;
    assert_eq!(a.add(missing, now).unwrap_err(), DecodeError::MissingSplitInfo);
    assert_eq!(a.add(part(1, 0, 0, b"a"), now).unwrap_err(), DecodeError::SplitCountZero);
    assert_eq!(a.add(part(1, 9, 0, b"a"), now).unwrap_err(), DecodeError::SplitTooLarge);
    assert_eq!(a.add(part(1, 2, 2, b"a"), now).unwrap_err(), DecodeError::SplitIndexOutOfRange);
}

#[test]
fn part_count_must_agree_and_buffer_is_bounded() {
    let mut a = assembler();
    let now = Instant::from_nanos(0);
    assert!(a.add(part(1, 2, 0, b"a"), now).unwrap().is_none());
    assert_eq!(a.add(part(1, 3, 1, b"b"), now).unwrap_err(), DecodeError::SplitCountMismatch);
    assert!(a.add(part(2, 2, 0, b"a"), now).unwrap().is_none());
    assert_eq!(a.add(part(3, 2, 0, b"a"), now).unwrap_err(), DecodeError::SplitBufferFull);
    // an existing compound still takes parts when the buffer is full
    let joined = a.add(part(1, 2, 1, b"b"), now).unwrap().unwrap();
    assert_eq!(&joined.payload[..], b"ab");
}

#[test]
fn prune_drops_compounds_past_their_time_to_live() {
    let mut a = SplitAssembler::new(Duration::from_secs(1), 8, 4);
    let t0 = Instant::from_nanos(1_000_000_000);
    assert!(a.add(part(1, 2, 0, b"a"), t0).unwrap().is_none());
    let t1 = t0.add_duration(Duration::from_millis(500));
    assert!(a.add(part(2, 2, 0, b"a"), t1).unwrap().is_none());
    assert_eq!(a.prune(t0.add_duration(Duration::from_millis(999))), 0);
    assert_eq!(a.prune(t0.add_duration(Duration::from_secs(1))), 1);
    assert_eq!(a.prune(t1.add_duration(Duration::from_secs(1))), 1);
    assert_eq!(a.prune(t1.add_duration(Duration::from_secs(10))), 0);
}

#[test]
fn zero_time_to_live_counts_as_thirty_seconds() {
    let mut a = SplitAssembler::new(Duration::zero(), 8, 4);
    let t0 = Instant::from_nanos(0);
    assert!(a.add(part(1, 2, 0, b"a"), t0).unwrap().is_none());
    assert_eq!(a.prune(t0.add_duration(Duration::from_secs(29))), 0);
    assert_eq!(a.prune(t0.add_duration(Duration::from_secs(30))), 1);
}
