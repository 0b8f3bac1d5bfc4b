//! Frames: the units of payload that datagrams carry.
//!
//! On the wire a frame is a header byte (reliability in the top three bits,
//! 0x10 for a split frame, 0x08 for "needs B and AS"), the payload length in
//! bits (big endian), the 24-bit little-endian reliable index when the
//! reliability is reliable, the sequence index when it is sequenced, the
//! ordering index and channel when it is ordered or sequenced, the split
//! header (part count, compound id, part index) when the frame is split, and
//! the payload.
use vstd::prelude::*;

use crate::buffer::{bytes_as_slice, bytes_contents, bytes_from_vec, bytes_len};
use crate::error::{DecodeError, EncodeError};

use super::primitives::{
    lemma_u16_roundtrip, lemma_u24_roundtrip, lemma_u32_roundtrip, read_u16, read_u24, read_u32,
    u16_be_bytes, u16_from_be, u24_from_le, u24_le_bytes, u32_be_bytes, u32_from_be, write_bytes,
    write_u16, write_u24, write_u32, write_u8, ReadResult, lemma_u16_byte_orders,
};
use super::reliability::Reliability;
use super::sequence24::Sequence24;

verus! {

#[derive(Debug, Clone, Copy, PartialEq, Eq, Structural)]
pub struct FrameHeader {
    pub reliability: Reliability,
    pub is_split: bool,
    pub needs_bas: bool,
}

/// Where a split frame's part belongs: the number of parts of its compound,
/// the compound's id and the part's index.
#[derive(Debug, Clone, Copy, PartialEq, Eq, Structural)]
pub struct SplitInfo {
    pub part_count: u32,
    pub part_id: u16,
    pub part_index: u32,
}

#[derive(Debug, Clone)]
pub struct Frame {
    pub header: FrameHeader,
    pub bit_length: u16,
    pub reliable_index: Option<Sequence24>,
    pub sequence_index: Option<Sequence24>,
    pub ordering_index: Option<Sequence24>,
    pub ordering_channel: Option<u8>,
    pub split: Option<SplitInfo>,
    pub payload: bytes::Bytes,
}

/// A frame with its payload seen as a sequence of bytes.
pub struct FrameView {
    pub header: FrameHeader,
    pub bit_length: u16,
    pub reliable_index: Option<Sequence24>,
    pub sequence_index: Option<Sequence24>,
    pub ordering_index: Option<Sequence24>,
    pub ordering_channel: Option<u8>,
    pub split: Option<SplitInfo>,
    pub payload: Seq<u8>,
}

impl View for Frame {
    type V = FrameView;

    open spec fn view(&self) -> FrameView {
        FrameView {
            header: self.header,
            bit_length: self.bit_length,
            reliable_index: self.reliable_index,
            sequence_index: self.sequence_index,
            ordering_index: self.ordering_index,
            ordering_channel: self.ordering_channel,
            split: self.split,
            payload: bytes_contents(self.payload),
        }
    }
}

/// The largest payload whose length in bits fits the 16-bit length field.
pub open spec fn max_frame_payload() -> nat {
    8191
}

pub open spec fn header_byte(h: FrameHeader) -> u8 {
    ((h.reliability.spec_code() << 5u8) | (if h.is_split { 0x10u8 } else { 0u8 }) | (
    if h.needs_bas { 0x08u8 } else { 0u8 })) as u8
}

pub open spec fn header_from_byte(b: u8) -> FrameHeader {
    FrameHeader {
        reliability: Reliability::spec_from_code(b >> 5u8),
        is_split: b & 0x10 != 0,
        needs_bas: b & 0x08 != 0,
    }
}

pub open spec fn seq_bytes(s: Option<Sequence24>) -> Seq<u8> {
    u24_le_bytes(s.unwrap().spec_value())
}

/// The bytes between the header and the payload.
pub open spec fn frame_fields_bytes(f: FrameView) -> Seq<u8> {
    let r = f.header.reliability;
    (if r.spec_is_reliable() {
        seq_bytes(f.reliable_index)
    } else {
        Seq::empty()
    }) + (if r.spec_is_sequenced() {
        seq_bytes(f.sequence_index)
    } else {
        Seq::empty()
    }) + (if r.spec_has_ordering() {
        seq_bytes(f.ordering_index) + seq![f.ordering_channel.unwrap()]
    } else {
        Seq::empty()
    }) + (if f.header.is_split {
        u32_be_bytes(f.split.unwrap().part_count) + u16_be_bytes(f.split.unwrap().part_id)
            + u32_be_bytes(f.split.unwrap().part_index)
    } else {
        Seq::empty()
    })
}

/// The wire form of a frame.
pub open spec fn frame_bytes(f: FrameView) -> Seq<u8> {
    seq![header_byte(f.header)] + u16_be_bytes((f.payload.len() * 8) as u16) + frame_fields_bytes(
        f,
    ) + f.payload
}

/// Whether a frame can be encoded: its payload length in bits fits 16 bits and
/// it carries every index and header its reliability and split flag call for.
pub open spec fn frame_encodable(f: FrameView) -> bool {
    &&& f.payload.len() <= max_frame_payload()
    &&& frame_has_required_fields(f)
}

/// Whether a frame carries every index and header its reliability and split flag call for.
pub open spec fn frame_has_required_fields(f: FrameView) -> bool {
    &&& f.header.reliability.spec_is_reliable() ==> f.reliable_index is Some
    &&& f.header.reliability.spec_is_sequenced() ==> f.sequence_index is Some
    &&& f.header.reliability.spec_has_ordering() ==> f.ordering_index is Some
        && f.ordering_channel is Some
    &&& f.header.is_split ==> f.split is Some
}

/// Whether a frame is exactly what decoding gives: encodable, its bit length
/// that of its payload, no field present that its header does not call for,
/// and every index a valid 24-bit number.
pub open spec fn frame_canonical(f: FrameView) -> bool {
    &&& frame_encodable(f)
    &&& f.bit_length == f.payload.len() * 8
    &&& (f.reliable_index is Some) == f.header.reliability.spec_is_reliable()
    &&& (f.sequence_index is Some) == f.header.reliability.spec_is_sequenced()
    &&& (f.ordering_index is Some) == f.header.reliability.spec_has_ordering()
    &&& (f.ordering_channel is Some) == f.header.reliability.spec_has_ordering()
    &&& (f.split is Some) == f.header.is_split
    &&& (f.reliable_index matches Some(i) ==> i.valid())
    &&& (f.sequence_index matches Some(i) ==> i.valid())
    &&& (f.ordering_index matches Some(i) ==> i.valid())
}

/// The number of bytes a frame with this header and payload length occupies.
pub open spec fn spec_frame_size(h: FrameHeader, payload_len: nat) -> nat {
    3 + (if h.reliability.spec_is_reliable() {
        3nat
    } else {
        0nat
    }) + (if h.reliability.spec_is_sequenced() {
        3nat
    } else {
        0nat
    }) + (if h.reliability.spec_has_ordering() {
        4nat
    } else {
        0nat
    }) + (if h.is_split {
        10nat
    } else {
        0nat
    }) + payload_len
}

/// The number of payload bytes announced by a length of `bits` bits.
pub open spec fn payload_len_of_bits(bits: u16) -> nat {
    ((bits as nat) + 7) / 8
}

/// The number of bytes between a frame's length field and its payload.
pub open spec fn spec_fields_len(h: FrameHeader) -> int {
    (if h.reliability.spec_is_reliable() {
        3int
    } else {
        0int
    }) + (if h.reliability.spec_is_sequenced() {
        3int
    } else {
        0int
    }) + (if h.reliability.spec_has_ordering() {
        4int
    } else {
        0int
    }) + (if h.is_split {
        10int
    } else {
        0int
    })
}

/// The frame with header `h`, length field `bits`, the bytes `b` between the
/// length field and the payload, and the payload `payload`.
pub open spec fn frame_from_parts(h: FrameHeader, bits: u16, b: Seq<u8>, payload: Seq<u8>) -> FrameView {
    let r = h.reliability;
    let o1: int = if r.spec_is_reliable() {
        3
    } else {
        0
    };
    let o2: int = o1 + if r.spec_is_sequenced() {
        3int
    } else {
        0int
    };
    let o3: int = o2 + if r.spec_has_ordering() {
        4int
    } else {
        0int
    };
    FrameView {
        header: h,
        bit_length: bits,
        reliable_index: if r.spec_is_reliable() {
            Some(Sequence24::spec_new(u24_from_le(b.subrange(0, 3))))
        } else {
            None
        },
        sequence_index: if r.spec_is_sequenced() {
            Some(Sequence24::spec_new(u24_from_le(b.subrange(o1, o1 + 3))))
        } else {
            None
        },
        ordering_index: if r.spec_has_ordering() {
            Some(Sequence24::spec_new(u24_from_le(b.subrange(o2, o2 + 3))))
        } else {
            None
        },
        ordering_channel: if r.spec_has_ordering() {
            Some(b[o2 + 3])
        } else {
            None
        },
        split: if h.is_split {
            Some(
                SplitInfo {
                    part_count: u32_from_be(b.subrange(o3, o3 + 4)),
                    part_id: u16_from_be(b.subrange(o3 + 4, o3 + 6)),
                    part_index: u32_from_be(b.subrange(o3 + 6, o3 + 10)),
                },
            )
        } else {
            None
        },
        payload,
    }
}

/// Reading a frame at position `p`: the frame and the position after it, or
/// `UnexpectedEof` when the input ends before the frame does.
pub open spec fn spec_read_frame(s: Seq<u8>, p: usize) -> ReadResult<FrameView> {
    if p + 3 > s.len() {
        Err(DecodeError::UnexpectedEof)
    } else {
        let h = header_from_byte(s[p as int]);
        let bits = u16_from_be(s.subrange(p + 1, p + 3));
        let q4 = p + 3 + spec_fields_len(h);
        let end = q4 + payload_len_of_bits(bits);
        if end > s.len() {
            Err(DecodeError::UnexpectedEof)
        } else {
            Ok(
                (
                    frame_from_parts(h, bits, s.subrange(p + 3, q4), s.subrange(q4, end)),
                    end as usize,
                ),
            )
        }
    }
}

/// Relates the result of an executable read of a frame to the spec of reading.
pub open spec fn frame_read_matches(r: ReadResult<Frame>, spec: ReadResult<FrameView>) -> bool {
    match r {
        Ok((f, q)) => spec == Ok::<(FrameView, usize), DecodeError>((f@, q)),
        Err(e) => spec == Err::<(FrameView, usize), DecodeError>(e),
    }
}

fn write_seq_field(out: &mut Vec<u8>, s: Option<Sequence24>)
    requires
        s is Some,
    ensures
        final(out)@ == old(out)@ + seq_bytes(s),
{
    match s {
        Some(v) => write_u24(out, v.value()),
        None => {},
    }
}

/// Copies `s[start..end]` into a new vector.
pub fn copy_range(s: &[u8], start: usize, end: usize) -> (v: Vec<u8>)
    requires
        start <= end <= s@.len(),
    ensures
        v@ == s@.subrange(start as int, end as int),
{
    let mut v: Vec<u8> = Vec::new();
    let mut i = start;
    while i < end
        invariant
            start <= i <= end <= s@.len(),
            v@ == s@.subrange(start as int, i as int),
        decreases end - i,
    {
        v.push(s[i]);
        i = i + 1;
        assert(v@ =~= s@.subrange(start as int, i as int));
    }
    v
}

impl Frame {
    /// The number of bytes this frame occupies on the wire.
    pub fn encoded_size(&self) -> (n: usize)
        requires
            spec_frame_size(self.header, bytes_contents(self.payload).len()) <= usize::MAX,
        ensures
            n == spec_frame_size(self.header, bytes_contents(self.payload).len()),
    {
        let r = self.header.reliability;
        let mut n: usize = 3;
        if r.is_reliable() {
            n = n + 3;
        }
        if r.is_sequenced() {
            n = n + 3;
        }
        if r.has_ordering() {
            n = n + 4;
        }
        if self.header.is_split {
            n = n + 10;
        }
        n + bytes_len(&self.payload)
    }

    /// Appends this frame's wire form to `out`. Fails, writing nothing, when the
    /// payload is longer than 8191 bytes or a field the header calls for is absent.
    pub fn encode(&self, out: &mut Vec<u8>) -> (r: Result<(), EncodeError>)
        ensures
            r is Ok <==> frame_encodable(self@),
            r is Ok ==> final(out)@ == old(out)@ + frame_bytes(self@),
            r is Err ==> final(out)@ == old(out)@,
            r matches Err(e) ==> e == if self@.payload.len() > max_frame_payload() {
                EncodeError::FramePayloadTooLarge(self@.payload.len() as usize)
            } else {
                EncodeError::FrameFieldMissing
            },
    {
        let len = bytes_len(&self.payload);
        if len > 8191 {
            return Err(EncodeError::FramePayloadTooLarge(len));
        }
        if !self.has_required_fields() {
            return Err(EncodeError::FrameFieldMissing);
        }
        let ghost start = out@;
        let code = self.header.reliability.code();
        let hb: u8 = (code << 5u8) | (if self.header.is_split {
            0x10u8
        } else {
            0u8
        }) | (if self.header.needs_bas {
            0x08u8
        } else {
            0u8
        });
        write_u8(out, hb);
        write_u16(out, (len * 8) as u16);
        let ghost after_len = out@;
        self.write_fields(out);
        let ghost after_fields = out@;
        write_bytes(out, bytes_as_slice(&self.payload));
        proof {
            let f = self@;
            assert(after_len =~= start + seq![header_byte(f.header)] + u16_be_bytes(
                (f.payload.len() * 8) as u16,
            ));
            assert(out@ =~= start + frame_bytes(f));
        }
        Ok(())
    }

    fn has_required_fields(&self) -> (b: bool)
        ensures
            b == frame_has_required_fields(self@),
    {
        let r = self.header.reliability;
        !((r.is_reliable() && self.reliable_index.is_none()) || (r.is_sequenced()
            && self.sequence_index.is_none()) || (r.has_ordering() && (
        self.ordering_index.is_none() || self.ordering_channel.is_none())) || (
        self.header.is_split && self.split.is_none()))
    }

    fn write_fields(&self, out: &mut Vec<u8>)
        requires
            frame_has_required_fields(self@),
        ensures
            final(out)@ == old(out)@ + frame_fields_bytes(self@),
    {
        let ghost start = out@;
        let r = self.header.reliability;
        if r.is_reliable() {
            write_seq_field(out, self.reliable_index);
        }
        let ghost a1 = out@;
        if r.is_sequenced() {
            write_seq_field(out, self.sequence_index);
        }
        let ghost a2 = out@;
        if r.has_ordering() {
            write_seq_field(out, self.ordering_index);
            match self.ordering_channel {
                Some(c) => write_u8(out, c),
                None => {},
            }
        }
        let ghost a3 = out@;
        if self.header.is_split {
            match self.split {
                Some(sp) => {
                    write_u32(out, sp.part_count);
                    write_u16(out, sp.part_id);
                    write_u32(out, sp.part_index);
                },
                None => {},
            }
        }
        proof {
            let f = self@;
            let p1 = if r.spec_is_reliable() {
                seq_bytes(f.reliable_index)
            } else {
                Seq::empty()
            };
            let p2 = if r.spec_is_sequenced() {
                seq_bytes(f.sequence_index)
            } else {
                Seq::empty()
            };
            let p3 = if r.spec_has_ordering() {
                seq_bytes(f.ordering_index) + seq![f.ordering_channel.unwrap()]
            } else {
                Seq::empty()
            };
            let p4 = if f.header.is_split {
                u32_be_bytes(f.split.unwrap().part_count) + u16_be_bytes(f.split.unwrap().part_id)
                    + u32_be_bytes(f.split.unwrap().part_index)
            } else {
                Seq::empty()
            };
            assert(a1 =~= start + p1);
            assert(a2 =~= a1 + p2);
            assert(a3 =~= a2 + p3);
            assert(out@ =~= a3 + p4);
            assert(frame_fields_bytes(f) == p1 + p2 + p3 + p4);
            assert(out@ =~= start + frame_fields_bytes(f));
        }
    }

    /// Reads a frame at position `p` of `s`.
    pub fn decode(s: &[u8], p: usize) -> (r: ReadResult<Frame>)
        ensures
            frame_read_matches(r, spec_read_frame(s@, p)),
    {
        if p >= s.len() || s.len() - p < 3 {
            return Err(DecodeError::UnexpectedEof);
        }
        let hb = s[p];
        let header = FrameHeader {
            reliability: Reliability::from_code(hb >> 5u8),
            is_split: hb & 0x10 != 0,
            needs_bas: hb & 0x08 != 0,
        };
        let bits = match read_u16(s, p + 1) {
            Ok((v, _)) => v,
            Err(e) => return Err(e),
        };
        let r = header.reliability;
        let extra: usize = (if r.is_reliable() {
            3usize
        } else {
            0
        }) + (if r.is_sequenced() {
            3usize
        } else {
            0
        }) + (if r.has_ordering() {
            4usize
        } else {
            0
        }) + (if header.is_split {
            10usize
        } else {
            0
        });
        let payload_len: usize = ((bits as usize) + 7) / 8;
        if s.len() - (p + 3) < extra || s.len() - (p + 3) - extra < payload_len {
            return Err(DecodeError::UnexpectedEof);
        }
        let q = p + 3 + extra;
        let payload = bytes_from_vec(copy_range(s, q, q + payload_len));
        let frame = Frame::from_parts(s, p + 3, header, bits, payload);
        let end = q + payload_len;
        proof {
            assert(header == header_from_byte(s@[p as int]));
            assert(bits == u16_from_be(s@.subrange(p + 1, p + 3)));
        }
        Ok((frame, end))
    }

    /// The frame whose fields after the length field start at `q` in `s`.
    fn from_parts(s: &[u8], q: usize, header: FrameHeader, bits: u16, payload: bytes::Bytes) -> (f:
        Frame)
        requires
            q + spec_fields_len(header) <= s.len(),
        ensures
            f@ == frame_from_parts(
                header,
                bits,
                s@.subrange(q as int, q + spec_fields_len(header)),
                bytes_contents(payload),
            ),
    {
        let ghost b = s@.subrange(q as int, q + spec_fields_len(header));
        let ghost target = frame_from_parts(header, bits, b, bytes_contents(payload));
        let r = header.reliability;
        let mut o = q;
        let mut reliable_index = None;
        if r.is_reliable() {
            reliable_index = Some(read_index_at(s, o));
            assert(b.subrange(0, 3) =~= s@.subrange(q as int, q + 3));
            o = o + 3;
        }
        assert(reliable_index == target.reliable_index);
        let ghost o1 = o - q;
        let mut sequence_index = None;
        if r.is_sequenced() {
            sequence_index = Some(read_index_at(s, o));
            assert(b.subrange(o1, o1 + 3) =~= s@.subrange(o as int, o + 3));
            o = o + 3;
        }
        assert(sequence_index == target.sequence_index);
        let ghost o2 = o - q;
        let mut ordering_index = None;
        let mut ordering_channel = None;
        if r.has_ordering() {
            ordering_index = Some(read_index_at(s, o));
            assert(b.subrange(o2, o2 + 3) =~= s@.subrange(o as int, o + 3));
            ordering_channel = Some(s[o + 3]);
            assert(b[o2 + 3] == s@[o + 3]);
            o = o + 4;
        }
        assert(ordering_index == target.ordering_index);
        assert(ordering_channel == target.ordering_channel);
        let ghost o3 = o - q;
        let mut split = None;
        if header.is_split {
            split = Some(read_split_at(s, o));
            assert(b.subrange(o3, o3 + 10) =~= s@.subrange(o as int, o + 10));
            assert(b.subrange(o3, o3 + 10).subrange(0, 4) =~= b.subrange(o3, o3 + 4));
            assert(b.subrange(o3, o3 + 10).subrange(4, 6) =~= b.subrange(o3 + 4, o3 + 6));
            assert(b.subrange(o3, o3 + 10).subrange(6, 10) =~= b.subrange(o3 + 6, o3 + 10));
        }
        assert(split == target.split);
        Frame {
            header,
            bit_length: bits,
            reliable_index,
            sequence_index,
            ordering_index,
            ordering_channel,
            split,
            payload,
        }
    }
}

fn read_index_at(s: &[u8], o: usize) -> (i: Sequence24)
    requires
        o + 3 <= s@.len(),
    ensures
        i == Sequence24::spec_new(u24_from_le(s@.subrange(o as int, o + 3))),
{
    match read_u24(s, o) {
        Ok((v, _)) => Sequence24::new(v),
        Err(_) => Sequence24::new(0),
    }
}

fn read_split_at(s: &[u8], o: usize) -> (sp: SplitInfo)
    requires
        o + 10 <= s.len(),
    ensures
        sp == (SplitInfo {
            part_count: u32_from_be(s@.subrange(o as int, o + 10).subrange(0, 4)),
            part_id: u16_from_be(s@.subrange(o as int, o + 10).subrange(4, 6)),
            part_index: u32_from_be(s@.subrange(o as int, o + 10).subrange(6, 10)),
        }),
{
    let ghost b = s@.subrange(o as int, o + 10);
    assert(b.subrange(0, 4) =~= s@.subrange(o as int, o + 4));
    assert(b.subrange(4, 6) =~= s@.subrange(o + 4, o + 6));
    assert(b.subrange(6, 10) =~= s@.subrange(o + 6, o + 10));
    let part_count = match read_u32(s, o) {
        Ok((v, _)) => v,
        Err(_) => 0,
    };
    let part_id = match read_u16(s, o + 4) {
        Ok((v, _)) => v,
        Err(_) => 0,
    };
    let part_index = match read_u32(s, o + 6) {
        Ok((v, _)) => v,
        Err(_) => 0,
    };
    SplitInfo { part_count, part_id, part_index }
}

proof fn lemma_header_roundtrip(h: FrameHeader)
    ensures
        header_from_byte(header_byte(h)) == h,
{
    let code = h.reliability.spec_code();
    let sb = h.is_split;
    let nb = h.needs_bas;
    assert(code < 8);
    assert({
        let b = ((code << 5u8) | (if sb {
            0x10u8
        } else {
            0u8
        }) | (if nb {
            0x08u8
        } else {
            0u8
        })) as u8;
        &&& (b >> 5u8) == code
        &&& (b & 0x10u8 != 0) == sb
        &&& (b & 0x08u8 != 0) == nb
    }) by (bit_vector)
        requires
            code < 8,
    ;
    h.reliability.lemma_code_roundtrip();
}

proof fn lemma_fields_roundtrip(f: FrameView)
    requires
        frame_canonical(f),
    ensures
        frame_fields_bytes(f).len() == spec_fields_len(f.header),
        frame_from_parts(f.header, f.bit_length, frame_fields_bytes(f), f.payload) == f,
{
    let r = f.header.reliability;
    let p1 = if r.spec_is_reliable() {
        seq_bytes(f.reliable_index)
    } else {
        Seq::empty()
    };
    let p2 = if r.spec_is_sequenced() {
        seq_bytes(f.sequence_index)
    } else {
        Seq::empty()
    };
    let p3 = if r.spec_has_ordering() {
        seq_bytes(f.ordering_index) + seq![f.ordering_channel.unwrap()]
    } else {
        Seq::empty()
    };
    let p4 = if f.header.is_split {
        u32_be_bytes(f.split.unwrap().part_count) + u16_be_bytes(f.split.unwrap().part_id)
            + u32_be_bytes(f.split.unwrap().part_index)
    } else {
        Seq::empty()
    };
    let b = frame_fields_bytes(f);
    assert(b == p1 + p2 + p3 + p4);
    let o1 = p1.len() as int;
    let o2 = o1 + p2.len();
    let o3 = o2 + p3.len();
    assert(b.subrange(0, o1) =~= p1);
    assert(b.subrange(o1, o2) =~= p2);
    assert(b.subrange(o2, o3) =~= p3);
    assert(b.subrange(o3, b.len() as int) =~= p4);
    if r.spec_is_reliable() {
        let i = f.reliable_index.unwrap();
        assert(b.subrange(0, 3) =~= u24_le_bytes(i.spec_value()));
        lemma_u24_roundtrip(i.spec_value());
        Sequence24::lemma_spec_new_of_value(i);
    }
    if r.spec_is_sequenced() {
        let i = f.sequence_index.unwrap();
        assert(b.subrange(o1, o1 + 3) =~= u24_le_bytes(i.spec_value()));
        lemma_u24_roundtrip(i.spec_value());
        Sequence24::lemma_spec_new_of_value(i);
    }
    if r.spec_has_ordering() {
        let i = f.ordering_index.unwrap();
        assert(b.subrange(o2, o2 + 3) =~= u24_le_bytes(i.spec_value()));
        assert(b[o2 + 3] == f.ordering_channel.unwrap());
        lemma_u24_roundtrip(i.spec_value());
        Sequence24::lemma_spec_new_of_value(i);
    }
    if f.header.is_split {
        let sp = f.split.unwrap();
        assert(b.subrange(o3, o3 + 4) =~= u32_be_bytes(sp.part_count));
        assert(b.subrange(o3 + 4, o3 + 6) =~= u16_be_bytes(sp.part_id));
        assert(b.subrange(o3 + 6, o3 + 10) =~= u32_be_bytes(sp.part_index));
        lemma_u32_roundtrip(sp.part_count);
        lemma_u16_roundtrip(sp.part_id);
        lemma_u32_roundtrip(sp.part_index);
    }
}

/// Decoding the wire form of a canonical frame, whatever follows it, gives the
/// frame back and stops where its wire form ends.
pub proof fn lemma_frame_roundtrip(f: FrameView, rest: Seq<u8>)
    requires
        frame_canonical(f),
    ensures
        spec_read_frame(frame_bytes(f) + rest, 0) == Ok::<(FrameView, usize), DecodeError>(
            (f, frame_bytes(f).len() as usize),
        ),
{
    let s = frame_bytes(f) + rest;
    let len: int = f.payload.len() as int;
    let bits = (len * 8) as u16;
    let fb = frame_fields_bytes(f);
    lemma_header_roundtrip(f.header);
    lemma_fields_roundtrip(f);
    lemma_u16_roundtrip(bits);
    assert(payload_len_of_bits(bits) == len);
    let q4: int = 3 + fb.len() as int;
    assert(frame_bytes(f) =~= seq![header_byte(f.header)] + u16_be_bytes(bits) + fb + f.payload);
    assert(s[0] == header_byte(f.header));
    assert(s.subrange(1, 3) =~= u16_be_bytes(bits));
    assert(s.subrange(3, q4) =~= fb);
    assert(s.subrange(q4, q4 + len) =~= f.payload);
}

/// A frame's wire form is as long as the size computed from its header and payload.
pub proof fn lemma_frame_size(f: FrameView)
    requires
        frame_encodable(f),
    ensures
        frame_bytes(f).len() == spec_frame_size(f.header, f.payload.len()),
{
}

/// A frame's header byte: the reliability's code in the top three bits,
/// then the split flag (0x10) and the "needs B and AS" flag (0x08), the low
/// three bits clear; reading it back gives the header.
pub proof fn lemma_frame_header_byte(h: FrameHeader)
    ensures
        header_byte(h) >> 5u8 == h.reliability.spec_code(),
        (header_byte(h) & 0x10u8 != 0) == h.is_split,
        (header_byte(h) & 0x08u8 != 0) == h.needs_bas,
        header_byte(h) & 0x07u8 == 0,
        header_from_byte(header_byte(h)) == h,
{
    let c = h.reliability.spec_code();
    let sp: u8 = if h.is_split { 0x10u8 } else { 0u8 };
    let nb: u8 = if h.needs_bas { 0x08u8 } else { 0u8 };
    assert(c < 8);
    assert(c < 8 && (sp == 0x10u8 || sp == 0u8) && (nb == 0x08u8 || nb == 0u8) ==> {
        let b = ((c << 5u8) | sp | nb) as u8;
        &&& b >> 5u8 == c
        &&& (b & 0x10u8 != 0) == (sp == 0x10u8)
        &&& (b & 0x08u8 != 0) == (nb == 0x08u8)
        &&& b & 0x07u8 == 0
        &&& (b >> 5u8) & 7u8 == c
    }) by (bit_vector);
    assert(Reliability::spec_from_code(c) == h.reliability);
}

/// A frame's wire form: the header byte, the payload's length in bits (two
/// bytes, big endian), the indices and split header its reliability and
/// split flag call for, then the payload, which ends the frame.
pub proof fn lemma_frame_wire_layout(f: FrameView)
    ensures
        ({
            let b = frame_bytes(f);
            &&& b[0] == header_byte(f.header)
            &&& b.len() == 3 + frame_fields_bytes(f).len() + f.payload.len()
            &&& f.payload.len() * 8 < 0x1_0000 ==> b[1] * 256 + b[2] == f.payload.len() * 8
            &&& b.subrange(3, 3 + frame_fields_bytes(f).len() as int) == frame_fields_bytes(f)
            &&& b.subrange(b.len() - f.payload.len(), b.len() as int) == f.payload
        }),
{
    let bits = (f.payload.len() * 8) as u16;
    lemma_u16_byte_orders(bits);
    let b = frame_bytes(f);
    assert(b.subrange(3, 3 + frame_fields_bytes(f).len() as int) =~= frame_fields_bytes(f));
    assert(b.subrange(b.len() - f.payload.len(), b.len() as int) =~= f.payload);
}

} // verus!
