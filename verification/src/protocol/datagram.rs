//! Datagrams: a flag byte, then either a sequence number and frames (data), or
//! an acknowledgement payload (ACK or NACK).
use vstd::prelude::*;

use crate::error::{DecodeError, EncodeError};

use super::ack::{
    ack_bytes, ack_encodable, ranges_valid, spec_ack_size, spec_read_ack,
    AckNackPayload, SequenceRange,
};
use super::constants::{DatagramFlags, RAKNET_DATAGRAM_HEADER_SIZE};
use super::frame::{
    frame_bytes, frame_canonical, frame_encodable, lemma_frame_roundtrip,
    max_frame_payload, spec_frame_size, spec_read_frame, Frame, FrameView,
};
use super::primitives::{
    lemma_u24_roundtrip, read_u24, spec_read_u24, u24_le_bytes, write_u24, write_u8, ReadResult,
    lemma_u24_byte_order,
};
use super::sequence24::Sequence24;

verus! {

/// What a datagram carries, as its flag byte announces it.
#[derive(Debug, Clone, Copy, PartialEq, Eq, Structural)]
pub enum DatagramKind {
    Data,
    Ack,
    Nack,
}

#[derive(Debug, Clone)]
pub enum DatagramPayload {
    Frames(Vec<Frame>),
    Ack(AckNackPayload),
    Nack(AckNackPayload),
}

#[derive(Debug, Clone, Copy)]
pub struct DatagramHeader {
    pub flags: DatagramFlags,
    pub sequence: Sequence24,
}

#[derive(Debug, Clone)]
pub struct Datagram {
    pub header: DatagramHeader,
    pub payload: DatagramPayload,
}

pub enum DatagramPayloadView {
    Frames(Seq<FrameView>),
    Ack(Seq<SequenceRange>),
    Nack(Seq<SequenceRange>),
}

pub struct DatagramView {
    pub header: DatagramHeader,
    pub payload: DatagramPayloadView,
}

pub open spec fn frames_view(fs: Seq<Frame>) -> Seq<FrameView> {
    fs.map_values(|f: Frame| f@)
}

impl View for DatagramPayload {
    type V = DatagramPayloadView;

    open spec fn view(&self) -> DatagramPayloadView {
        match self {
            DatagramPayload::Frames(fs) => DatagramPayloadView::Frames(frames_view(fs@)),
            DatagramPayload::Ack(a) => DatagramPayloadView::Ack(a.ranges@),
            DatagramPayload::Nack(a) => DatagramPayloadView::Nack(a.ranges@),
        }
    }
}

impl View for Datagram {
    type V = DatagramView;

    open spec fn view(&self) -> DatagramView {
        DatagramView { header: self.header, payload: self.payload@ }
    }
}

pub open spec fn payload_kind(p: DatagramPayloadView) -> DatagramKind {
    match p {
        DatagramPayloadView::Frames(_) => DatagramKind::Data,
        DatagramPayloadView::Ack(_) => DatagramKind::Ack,
        DatagramPayloadView::Nack(_) => DatagramKind::Nack,
    }
}

/// What a flag byte announces: nothing acceptable unless its high bit is set;
/// an ACK for 0xC0 and 0xD0, a NACK for 0xA0, data for every other byte with
/// the high bit set. The flags kept are the byte's defined bits.
pub open spec fn spec_decode_flags(raw: u8) -> Result<(DatagramFlags, DatagramKind), DecodeError> {
    if raw & 0x80 == 0 {
        Err(DecodeError::InvalidDatagramFlags(raw))
    } else if raw == 0xC0 || raw == 0xD0 {
        Ok((DatagramFlags::spec_from_bits_truncate(raw), DatagramKind::Ack))
    } else if raw == 0xA0 {
        Ok((DatagramFlags::spec_from_bits_truncate(raw), DatagramKind::Nack))
    } else {
        Ok((DatagramFlags::spec_from_bits_truncate(raw), DatagramKind::Data))
    }
}

/// The wire form of a list of frames, one after the other.
pub open spec fn frames_bytes(fs: Seq<FrameView>) -> Seq<u8>
    decreases fs.len(),
{
    if fs.len() == 0 {
        Seq::empty()
    } else {
        frame_bytes(fs[0]) + frames_bytes(fs.drop_first())
    }
}

pub open spec fn frames_size(fs: Seq<FrameView>) -> nat
    decreases fs.len(),
{
    if fs.len() == 0 {
        0
    } else {
        spec_frame_size(fs[0].header, fs[0].payload.len()) + frames_size(fs.drop_first())
    }
}

/// The wire form of a datagram.
pub open spec fn datagram_bytes(d: DatagramView) -> Seq<u8> {
    match d.payload {
        DatagramPayloadView::Frames(fs) => seq![d.header.flags.spec_bits()] + u24_le_bytes(
            d.header.sequence.spec_value(),
        ) + frames_bytes(fs),
        DatagramPayloadView::Ack(rs) => seq![d.header.flags.spec_bits()] + ack_bytes(rs),
        DatagramPayloadView::Nack(rs) => seq![d.header.flags.spec_bits()] + ack_bytes(rs),
    }
}

/// The number of bytes of a datagram's wire form, as computed from its parts.
pub open spec fn spec_datagram_size(d: DatagramView) -> nat {
    match d.payload {
        DatagramPayloadView::Frames(fs) => 4 + frames_size(fs),
        DatagramPayloadView::Ack(rs) => 1 + spec_ack_size(rs),
        DatagramPayloadView::Nack(rs) => 1 + spec_ack_size(rs),
    }
}

/// Whether the flags announce the kind of payload the datagram carries.
pub open spec fn flags_match_payload(d: DatagramView) -> bool {
    spec_decode_flags(d.header.flags.spec_bits()) matches Ok((_, k)) && k == payload_kind(
        d.payload,
    )
}

/// The error of the first frame of `fs` that cannot be encoded, if any.
pub open spec fn first_frame_error(fs: Seq<FrameView>) -> Option<EncodeError>
    decreases fs.len(),
{
    if fs.len() == 0 {
        None
    } else if fs[0].payload.len() > max_frame_payload() {
        Some(EncodeError::FramePayloadTooLarge(fs[0].payload.len() as usize))
    } else if !frame_encodable(fs[0]) {
        Some(EncodeError::FrameFieldMissing)
    } else {
        first_frame_error(fs.drop_first())
    }
}

/// Whether a frame cannot be encoded.
pub open spec fn frame_unencodable(f: FrameView) -> bool {
    f.payload.len() > max_frame_payload() || !frame_encodable(f)
}

/// The index of the first frame that cannot be encoded (the number of
/// frames when every one can).
pub open spec fn first_bad_frame_index(fs: Seq<FrameView>) -> nat
    decreases fs.len(),
{
    if fs.len() == 0 {
        0
    } else if frame_unencodable(fs[0]) {
        0
    } else {
        1 + first_bad_frame_index(fs.drop_first())
    }
}

/// What encoding a datagram has written when it fails: nothing for flags
/// that do not announce the payload's kind; otherwise the header and every
/// frame before the first one that cannot be encoded, or the flag byte of an
/// acknowledgement.
pub open spec fn datagram_error_written(d: DatagramView) -> Seq<u8> {
    if !flags_match_payload(d) {
        Seq::empty()
    } else {
        match d.payload {
            DatagramPayloadView::Frames(fs) => seq![d.header.flags.spec_bits()] + u24_le_bytes(
                d.header.sequence.spec_value(),
            ) + frames_bytes(fs.take(first_bad_frame_index(fs) as int)),
            _ => seq![d.header.flags.spec_bits()],
        }
    }
}

/// The error encoding a datagram gives, if any: a flag byte that does not
/// announce the payload's kind, else the first frame that cannot be encoded,
/// else an acknowledgement with too many ranges.
pub open spec fn datagram_encode_error(d: DatagramView) -> Option<EncodeError> {
    if !flags_match_payload(d) {
        Some(EncodeError::InvalidDatagramFlags(d.header.flags.spec_bits()))
    } else {
        match d.payload {
            DatagramPayloadView::Frames(fs) => first_frame_error(fs),
            DatagramPayloadView::Ack(rs) => if ack_encodable(rs) {
                None
            } else {
                Some(EncodeError::TooManyAckRanges(rs.len() as usize))
            },
            DatagramPayloadView::Nack(rs) => if ack_encodable(rs) {
                None
            } else {
                Some(EncodeError::TooManyAckRanges(rs.len() as usize))
            },
        }
    }
}

/// Reading frames from `p` to the end of the input.
pub open spec fn spec_read_frames(s: Seq<u8>, p: usize) -> Result<Seq<FrameView>, DecodeError>
    decreases s.len() - p,
{
    if p >= s.len() {
        Ok(Seq::empty())
    } else {
        match spec_read_frame(s, p) {
            Err(e) => Err(e),
            Ok((f, q)) => if q > p {
                match spec_read_frames(s, q) {
                    Err(e) => Err(e),
                    Ok(fs) => Ok(seq![f] + fs),
                }
            } else {
                Err(DecodeError::UnexpectedEof)
            },
        }
    }
}

/// Decoding a whole datagram.
pub open spec fn spec_decode_datagram(s: Seq<u8>) -> Result<DatagramView, DecodeError> {
    if s.len() == 0 {
        Err(DecodeError::UnexpectedEof)
    } else {
        match spec_decode_flags(s[0]) {
            Err(e) => Err(e),
            Ok((flags, kind)) => match kind {
                DatagramKind::Ack => match spec_read_ack(s, 1) {
                    Err(e) => Err(e),
                    Ok((rs, _)) => Ok(
                        DatagramView {
                            header: DatagramHeader { flags, sequence: Sequence24::spec_new(0) },
                            payload: DatagramPayloadView::Ack(rs),
                        },
                    ),
                },
                DatagramKind::Nack => match spec_read_ack(s, 1) {
                    Err(e) => Err(e),
                    Ok((rs, _)) => Ok(
                        DatagramView {
                            header: DatagramHeader { flags, sequence: Sequence24::spec_new(0) },
                            payload: DatagramPayloadView::Nack(rs),
                        },
                    ),
                },
                DatagramKind::Data => match spec_read_u24(s, 1) {
                    Err(e) => Err(e),
                    Ok((sq, p)) => match spec_read_frames(s, p) {
                        Err(e) => Err(e),
                        Ok(fs) => Ok(
                            DatagramView {
                                header: DatagramHeader { flags, sequence: Sequence24::spec_new(sq) },
                                payload: DatagramPayloadView::Frames(fs),
                            },
                        ),
                    },
                },
            },
        }
    }
}

/// Decoding the header of a data datagram at `p`: four bytes, whose flag byte
/// must announce data.
pub open spec fn spec_read_header(s: Seq<u8>, p: usize) -> ReadResult<DatagramHeader> {
    if p + 4 > s.len() {
        Err(DecodeError::UnexpectedEof)
    } else {
        match spec_decode_flags(s[p as int]) {
            Err(e) => Err(e),
            Ok((flags, kind)) => if kind != DatagramKind::Data {
                Err(DecodeError::InvalidDatagramFlags(s[p as int]))
            } else {
                match spec_read_u24(s, (p + 1) as usize) {
                    Err(e) => Err(e),
                    Ok((sq, q)) => Ok((DatagramHeader { flags, sequence: Sequence24::spec_new(sq) }, q)),
                }
            },
        }
    }
}

/// Whether a datagram is exactly what decoding its wire form gives: flags that
/// announce its payload, valid sequence numbers, canonical frames, and for an
/// acknowledgement an encodable list and the sequence number zero.
pub open spec fn datagram_canonical(d: DatagramView) -> bool {
    &&& d.header.flags.valid()
    &&& flags_match_payload(d)
    &&& d.header.sequence.valid()
    &&& match d.payload {
        DatagramPayloadView::Frames(fs) => forall|i: int|
            0 <= i < fs.len() ==> frame_canonical(#[trigger] fs[i]),
        DatagramPayloadView::Ack(rs) => ack_encodable(rs) && ranges_valid(rs)
            && d.header.sequence.spec_value() == 0,
        DatagramPayloadView::Nack(rs) => ack_encodable(rs) && ranges_valid(rs)
            && d.header.sequence.spec_value() == 0,
    }
}

/// The kind a flag byte announces: a byte without the high bit is refused;
/// 0xC0 and 0xD0 announce an acknowledgement, 0xA0 a negative one, and every
/// other byte with the high bit (0x80 to 0x8F among them) a data datagram. The
/// flags are the byte's known bits.
pub proof fn lemma_flag_byte_kinds(raw: u8)
    ensures
        raw & 0x80 == 0 ==> spec_decode_flags(raw) == Err::<(DatagramFlags, DatagramKind), DecodeError>(
            DecodeError::InvalidDatagramFlags(raw),
        ),
        raw & 0x80 != 0 ==> (spec_decode_flags(raw) matches Ok((f, k)) && {
            &&& f == DatagramFlags::spec_from_bits_truncate(raw)
            &&& (k == DatagramKind::Ack <==> (raw == 0xC0 || raw == 0xD0))
            &&& (k == DatagramKind::Nack <==> raw == 0xA0)
            &&& (k == DatagramKind::Data <==> (raw != 0xC0 && raw != 0xD0 && raw != 0xA0))
        }),
        0x80 <= raw <= 0x8F ==> (spec_decode_flags(raw) matches Ok((_, k)) && k == DatagramKind::Data),
        0xC0 <= raw ==> raw & 0x80 != 0,
{
    assert(0x80 <= raw <= 0x8F ==> raw & 0x80 != 0) by (bit_vector);
    assert(0xA0 <= raw ==> raw & 0x80 != 0) by (bit_vector);
}

pub fn decode_datagram_flags(raw: u8) -> (r: Result<(DatagramFlags, DatagramKind), DecodeError>)
    ensures
        r == spec_decode_flags(raw),
        raw & 0x80 == 0 <==> r is Err,
        r is Err ==> r == Err::<(DatagramFlags, DatagramKind), DecodeError>(
            DecodeError::InvalidDatagramFlags(raw),
        ),
        r matches Ok((f, k)) ==> ({
            &&& f == DatagramFlags::spec_from_bits_truncate(raw)
            &&& (k == DatagramKind::Ack <==> (raw == 0xC0 || raw == 0xD0))
            &&& (k == DatagramKind::Nack <==> raw == 0xA0)
            &&& (k == DatagramKind::Data <==> (raw != 0xC0 && raw != 0xD0 && raw != 0xA0))
        }),
{
    proof {
        lemma_flag_byte_kinds(raw);
    }
    let flags = DatagramFlags::from_bits_truncate(raw);
    if raw & 0x80 == 0 {
        return Err(DecodeError::InvalidDatagramFlags(raw));
    }
    if raw == 0xC0 || raw == 0xD0 {
        return Ok((flags, DatagramKind::Ack));
    }
    if raw == 0xA0 {
        return Ok((flags, DatagramKind::Nack));
    }
    Ok((flags, DatagramKind::Data))
}

impl DatagramPayload {
    pub fn kind(&self) -> (k: DatagramKind)
        ensures
            k == payload_kind(self@),
    {
        match self {
            DatagramPayload::Frames(_) => DatagramKind::Data,
            DatagramPayload::Ack(_) => DatagramKind::Ack,
            DatagramPayload::Nack(_) => DatagramKind::Nack,
        }
    }
}

/// Checks that the flags announce the kind of `payload`.
pub fn validate_flags_for_payload(flags: DatagramFlags, payload: &DatagramPayload) -> (r: Result<
    (),
    EncodeError,
>)
    ensures
        r is Ok <==> (spec_decode_flags(flags.spec_bits()) matches Ok((_, k)) && k == payload_kind(
            payload@,
        )),
        r matches Err(e) ==> e == EncodeError::InvalidDatagramFlags(flags.spec_bits()),
{
    let raw = flags.bits();
    let decoded_kind = match decode_datagram_flags(raw) {
        Ok((_, k)) => k,
        Err(_) => return Err(EncodeError::InvalidDatagramFlags(raw)),
    };
    if decoded_kind != payload.kind() {
        return Err(EncodeError::InvalidDatagramFlags(raw));
    }
    Ok(())
}

impl DatagramHeader {
    /// Appends the flag byte and sequence number.
    pub fn encode(&self, out: &mut Vec<u8>)
        ensures
            final(out)@ == old(out)@ + seq![self.flags.spec_bits()] + u24_le_bytes(
                self.sequence.spec_value(),
            ),
    {
        write_u8(out, self.flags.bits());
        write_u24(out, self.sequence.value());
        assert(out@ =~= old(out)@ + seq![self.flags.spec_bits()] + u24_le_bytes(
            self.sequence.spec_value(),
        ));
    }

    /// Reads the header of a data datagram at `p`.
    pub fn decode(s: &[u8], p: usize) -> (r: ReadResult<DatagramHeader>)
        ensures
            r == spec_read_header(s@, p),
    {
        if p >= s.len() || s.len() - p < 4 {
            return Err(DecodeError::UnexpectedEof);
        }
        let raw = s[p];
        let (flags, kind) = match decode_datagram_flags(raw) {
            Ok(v) => v,
            Err(e) => return Err(e),
        };
        if kind != DatagramKind::Data {
            return Err(DecodeError::InvalidDatagramFlags(raw));
        }
        match read_u24(s, p + 1) {
            Ok((sq, q)) => Ok((DatagramHeader { flags, sequence: Sequence24::new(sq) }, q)),
            Err(e) => Err(e),
        }
    }
}

proof fn lemma_frames_bytes_push(fs: Seq<FrameView>, f: FrameView)
    ensures
        frames_bytes(fs.push(f)) == frames_bytes(fs) + frame_bytes(f),
        frames_size(fs.push(f)) == frames_size(fs) + spec_frame_size(f.header, f.payload.len()),
    decreases fs.len(),
{
    let g = fs.push(f);
    if fs.len() == 0 {
        assert(g[0] == f);
        assert(g.drop_first() == Seq::<FrameView>::empty());
        assert(frames_bytes(g.drop_first()) == Seq::<u8>::empty());
        assert(frames_size(g.drop_first()) == 0);
        assert(frames_bytes(g) =~= frame_bytes(f));
        assert(frames_bytes(fs) == Seq::<u8>::empty());
        assert(frames_bytes(g) =~= frames_bytes(fs) + frame_bytes(f));
    } else {
        assert(g[0] == fs[0]);
        assert(g.drop_first() == fs.drop_first().push(f));
        lemma_frames_bytes_push(fs.drop_first(), f);
        assert(frames_bytes(g) =~= frames_bytes(fs) + frame_bytes(f));
    }
}

proof fn lemma_first_frame_error_push(fs: Seq<FrameView>, f: FrameView)
    requires
        first_frame_error(fs) is None,
    ensures
        first_frame_error(fs.push(f)) == (if f.payload.len() > max_frame_payload() {
            Some(EncodeError::FramePayloadTooLarge(f.payload.len() as usize))
        } else if !frame_encodable(f) {
            Some(EncodeError::FrameFieldMissing)
        } else {
            None
        }),
    decreases fs.len(),
{
    let g = fs.push(f);
    if fs.len() == 0 {
        assert(g[0] == f);
        assert(g.drop_first() == Seq::<FrameView>::empty());
        assert(first_frame_error(g.drop_first()) is None);
    } else {
        assert(g[0] == fs[0]);
        assert(g.drop_first() == fs.drop_first().push(f));
        lemma_first_frame_error_push(fs.drop_first(), f);
    }
}

proof fn lemma_first_frame_error_extend(fs: Seq<FrameView>, k: int)
    requires
        0 <= k < fs.len(),
        first_frame_error(fs.take(k + 1)) is Some,
    ensures
        first_frame_error(fs) == first_frame_error(fs.take(k + 1)),
    decreases k,
{
    let t = fs.take(k + 1);
    assert(t[0] == fs[0]);
    if fs[0].payload.len() > max_frame_payload() || !frame_encodable(fs[0]) {
    } else {
        if k == 0 {
            assert(t.drop_first() == Seq::<FrameView>::empty());
            assert(first_frame_error(t.drop_first()) is None);
            assert(false);
        }
        assert(t.drop_first() == fs.drop_first().take(k));
        lemma_first_frame_error_extend(fs.drop_first(), k - 1);
    }
}

/// When the frames before `i` can be encoded and frame `i` cannot, frame `i`
/// is the first that cannot.
proof fn lemma_first_bad_frame_index(fs: Seq<FrameView>, i: int)
    requires
        0 <= i < fs.len(),
        first_frame_error(fs.take(i)) is None,
        frame_unencodable(fs[i]),
    ensures
        first_bad_frame_index(fs) == i,
    decreases i,
{
    if i > 0 {
        let t = fs.take(i);
        assert(t[0] == fs[0]);
        assert(t.drop_first() =~= fs.drop_first().take(i - 1));
        lemma_first_bad_frame_index(fs.drop_first(), i - 1);
    }
}

proof fn lemma_frames_roundtrip(fs: Seq<FrameView>, s: Seq<u8>, p: usize)
    requires
        forall|i: int| 0 <= i < fs.len() ==> frame_canonical(#[trigger] fs[i]),
        p + frames_bytes(fs).len() == s.len(),
        s.len() <= usize::MAX,
        s.subrange(p as int, s.len() as int) == frames_bytes(fs),
    ensures
        spec_read_frames(s, p) == Ok::<Seq<FrameView>, DecodeError>(fs),
    decreases fs.len(),
{
    if fs.len() == 0 {
        assert(fs =~= Seq::<FrameView>::empty());
    } else {
        let f = fs[0];
        let fb = frame_bytes(f);
        let restb = frames_bytes(fs.drop_first());
        assert(frames_bytes(fs) == fb + restb);
        let tail = s.subrange(p as int, s.len() as int);
        assert(frame_canonical(f));
        lemma_frame_roundtrip(f, restb);
        // reading at p in s is reading at 0 in the tail
        lemma_read_frame_shift(s, p, fb + restb);
        let q = (p + fb.len()) as usize;
        assert(fb.len() >= 3);
        assert(tail =~= fb + restb);
        assert(s.subrange(q as int, s.len() as int) =~= tail.subrange(
            fb.len() as int,
            tail.len() as int,
        ));
        assert(s.subrange(q as int, s.len() as int) =~= restb);
        assert forall|i: int| 0 <= i < fs.drop_first().len() implies frame_canonical(
            #[trigger] fs.drop_first()[i],
        ) by {
            assert(fs.drop_first()[i] == fs[i + 1]);
        }
        lemma_frames_roundtrip(fs.drop_first(), s, q);
        assert(seq![f] + fs.drop_first() =~= fs);
    }
}

/// Reading a frame at `p` of `s` reads the frame at the start of `s[p..]`.
proof fn lemma_read_frame_shift(s: Seq<u8>, p: usize, t: Seq<u8>)
    requires
        p <= s.len(),
        s.len() <= usize::MAX,
        s.subrange(p as int, s.len() as int) == t,
    ensures
        spec_read_frame(t, 0) matches Ok((f, q)) ==> spec_read_frame(s, p) == Ok::<
            (FrameView, usize),
            DecodeError,
        >((f, (p + q) as usize)),
{
    if let Ok((f, q)) = spec_read_frame(t, 0) {
        assert(s[p as int] == t[0]);
        assert(s.subrange(p + 1, p + 3) =~= t.subrange(1, 3));
        let h = super::frame::header_from_byte(t[0]);
        let bits = super::primitives::u16_from_be(t.subrange(1, 3));
        let q4 = 3 + super::frame::spec_fields_len(h);
        let end = q4 + super::frame::payload_len_of_bits(bits);
        assert(s.subrange(p + 3, p + q4) =~= t.subrange(3, q4));
        assert(s.subrange(p + q4, p + end) =~= t.subrange(q4, end));
    }
}

impl Datagram {
    /// The number of bytes this datagram's wire form occupies.
    pub fn encoded_size(&self) -> (n: usize)
        requires
            spec_datagram_size(self@) <= usize::MAX,
        ensures
            n == spec_datagram_size(self@),
    {
        match &self.payload {
            DatagramPayload::Frames(frames) => {
                let ghost fv = frames_view(frames@);
                let mut n: usize = RAKNET_DATAGRAM_HEADER_SIZE;
                let mut i: usize = 0;
                while i < frames.len()
                    invariant
                        i <= frames@.len(),
                        fv == frames_view(frames@),
                        4 + frames_size(fv) <= usize::MAX,
                        n == 4 + frames_size(fv.take(i as int)),
                    decreases frames@.len() - i,
                {
                    proof {
                        assert(fv.take(i + 1) =~= fv.take(i as int).push(fv[i as int]));
                        lemma_frames_bytes_push(fv.take(i as int), fv[i as int]);
                        lemma_frames_size_prefix(fv, (i + 1) as int);
                    }
                    n = n + frames[i].encoded_size();
                    i = i + 1;
                }
                assert(fv.take(i as int) =~= fv);
                n
            },
            DatagramPayload::Ack(payload) => 1 + payload.encoded_size(),
            DatagramPayload::Nack(payload) => 1 + payload.encoded_size(),
        }
    }

    /// Appends this datagram's wire form to `out`. Fails when the flags do not
    /// announce the payload's kind (writing nothing), when a frame cannot be
    /// encoded (having written the header and the frames before it), or when
    /// an acknowledgement holds too many ranges (having written the flag byte).
    pub fn encode(&self, out: &mut Vec<u8>) -> (r: Result<(), EncodeError>)
        ensures
            match r {
                Ok(()) => datagram_encode_error(self@) is None && final(out)@ == old(out)@
                    + datagram_bytes(self@),
                Err(e) => datagram_encode_error(self@) == Some(e) && final(out)@ == old(out)@
                    + datagram_error_written(self@),
            },
    {
        validate_flags_for_payload(self.header.flags, &self.payload)?;
        match &self.payload {
            DatagramPayload::Frames(frames) => {
                let ghost fv = frames_view(frames@);
                self.header.encode(out);
                let ghost start = out@;
                let mut i: usize = 0;
                while i < frames.len()
                    invariant
                        i <= frames@.len(),
                        fv == frames_view(frames@),
                        self@.payload == DatagramPayloadView::Frames(fv),
                        flags_match_payload(self@),
                        start == old(out)@ + seq![self.header.flags.spec_bits()] + u24_le_bytes(
                            self.header.sequence.spec_value(),
                        ),
                        first_frame_error(fv.take(i as int)) is None,
                        out@ == start + frames_bytes(fv.take(i as int)),
                    decreases frames@.len() - i,
                {
                    proof {
                        assert(fv[i as int] == frames@[i as int]@);
                        assert(fv.take(i + 1) =~= fv.take(i as int).push(fv[i as int]));
                        lemma_first_frame_error_push(fv.take(i as int), fv[i as int]);
                        lemma_frames_bytes_push(fv.take(i as int), fv[i as int]);
                    }
                    match frames[i].encode(out) {
                        Ok(()) => {},
                        Err(e) => {
                            proof {
                                lemma_first_frame_error_extend(fv, i as int);
                                lemma_first_bad_frame_index(fv, i as int);
                                assert(out@ =~= old(out)@ + datagram_error_written(self@));
                            }
                            return Err(e);
                        },
                    }
                    i = i + 1;
                }
                assert(fv.take(i as int) =~= fv);
                assert(out@ =~= old(out)@ + datagram_bytes(self@));
                Ok(())
            },
            DatagramPayload::Ack(payload) | DatagramPayload::Nack(payload) => {
                write_u8(out, self.header.flags.bits());
                payload.encode(out)?;
                assert(out@ =~= old(out)@ + datagram_bytes(self@));
                Ok(())
            },
        }
    }

    /// Decodes a whole datagram from `s`.
    pub fn decode(s: &[u8]) -> (r: Result<Datagram, DecodeError>)
        ensures
            match r {
                Ok(d) => spec_decode_datagram(s@) == Ok::<DatagramView, DecodeError>(d@),
                Err(e) => spec_decode_datagram(s@) == Err::<DatagramView, DecodeError>(e),
            },
    {
        if s.len() == 0 {
            return Err(DecodeError::UnexpectedEof);
        }
        let raw = s[0];
        let (flags, kind) = match decode_datagram_flags(raw) {
            Ok(v) => v,
            Err(e) => return Err(e),
        };
        match kind {
            DatagramKind::Ack => match AckNackPayload::decode(s, 1) {
                Ok((a, _)) => Ok(
                    Datagram {
                        header: DatagramHeader { flags, sequence: Sequence24::new(0) },
                        payload: DatagramPayload::Ack(a),
                    },
                ),
                Err(e) => Err(e),
            },
            DatagramKind::Nack => match AckNackPayload::decode(s, 1) {
                Ok((a, _)) => Ok(
                    Datagram {
                        header: DatagramHeader { flags, sequence: Sequence24::new(0) },
                        payload: DatagramPayload::Nack(a),
                    },
                ),
                Err(e) => Err(e),
            },
            DatagramKind::Data => {
                let (sq, p) = match read_u24(s, 1) {
                    Ok(v) => v,
                    Err(e) => return Err(e),
                };
                match decode_frames(s, p) {
                    Ok(frames) => Ok(
                        Datagram {
                            header: DatagramHeader { flags, sequence: Sequence24::new(sq) },
                            payload: DatagramPayload::Frames(frames),
                        },
                    ),
                    Err(e) => Err(e),
                }
            },
        }
    }
}

proof fn lemma_frames_size_prefix(fs: Seq<FrameView>, i: int)
    requires
        0 <= i <= fs.len(),
    ensures
        frames_size(fs.take(i)) <= frames_size(fs),
    decreases fs.len() - i,
{
    if i < fs.len() {
        lemma_frames_size_prefix(fs, i + 1);
        assert(fs.take(i + 1) =~= fs.take(i).push(fs[i]));
        lemma_frames_bytes_push(fs.take(i), fs[i]);
    } else {
        assert(fs.take(i) =~= fs);
    }
}

/// Reads frames from `p` to the end of `s`.
fn decode_frames(s: &[u8], p: usize) -> (r: Result<Vec<Frame>, DecodeError>)
    ensures
        match r {
            Ok(fs) => spec_read_frames(s@, p) == Ok::<Seq<FrameView>, DecodeError>(
                frames_view(fs@),
            ),
            Err(e) => spec_read_frames(s@, p) == Err::<Seq<FrameView>, DecodeError>(e),
        },
{
    let mut frames: Vec<Frame> = Vec::new();
    let mut q = p;
    while q < s.len()
        invariant
            spec_read_frames(s@, p) == match spec_read_frames(s@, q) {
                Ok(rest) => Ok::<Seq<FrameView>, DecodeError>(frames_view(frames@) + rest),
                Err(e) => Err(e),
            },
        decreases s@.len() - q,
    {
        let ghost old_frames = frames@;
        match Frame::decode(s, q) {
            Ok((f, q2)) => {
                if q2 <= q {
                    return Err(DecodeError::UnexpectedEof);
                }
                proof {
                    let fv = f@;
                    assert(frames_view(old_frames.push(f)) =~= frames_view(old_frames).push(fv));
                    match spec_read_frames(s@, q2) {
                        Ok(rest) => {
                            assert(frames_view(old_frames) + (seq![fv] + rest) =~= frames_view(
                                old_frames,
                            ).push(fv) + rest);
                        },
                        Err(_) => {},
                    }
                }
                frames.push(f);
                q = q2;
            },
            Err(e) => return Err(e),
        }
    }
    assert(frames_view(frames@) + Seq::<FrameView>::empty() =~= frames_view(frames@));
    Ok(frames)
}

/// Decoding the wire form of a canonical datagram gives the datagram back.
pub proof fn lemma_datagram_roundtrip(d: DatagramView)
    requires
        datagram_canonical(d),
        datagram_bytes(d).len() <= usize::MAX,
    ensures
        spec_decode_datagram(datagram_bytes(d)) == Ok::<DatagramView, DecodeError>(d),
{
    let s = datagram_bytes(d);
    let raw = d.header.flags.spec_bits();
    assert(s[0] == raw);
    DatagramFlags::lemma_from_own_bits(d.header.flags);
    match d.payload {
        DatagramPayloadView::Frames(fs) => {
            let sq = d.header.sequence.spec_value();
            lemma_u24_roundtrip(sq);
            Sequence24::lemma_spec_new_of_value(d.header.sequence);
            assert(s.subrange(1, 4) =~= u24_le_bytes(sq));
            assert(s.subrange(4, s.len() as int) =~= frames_bytes(fs));
            lemma_frames_roundtrip(fs, s, 4);
        },
        DatagramPayloadView::Ack(rs) => {
            super::ack::lemma_records_len(rs);
            super::ack::lemma_records_size_bound(rs);
            assert(s.subrange(1, s.len() as int) =~= ack_bytes(rs));
            super::ack::lemma_ack_roundtrip_at(rs, s, 1);
            Sequence24::lemma_spec_new_of_value(d.header.sequence);
            super::sequence24::Sequence24::lemma_spec_new(0);
        },
        DatagramPayloadView::Nack(rs) => {
            super::ack::lemma_records_len(rs);
            super::ack::lemma_records_size_bound(rs);
            assert(s.subrange(1, s.len() as int) =~= ack_bytes(rs));
            super::ack::lemma_ack_roundtrip_at(rs, s, 1);
            Sequence24::lemma_spec_new_of_value(d.header.sequence);
            super::sequence24::Sequence24::lemma_spec_new(0);
        },
    }
}

/// Frames that can all be encoded take as many bytes as their computed sizes add up to.
proof fn lemma_frames_bytes_len(fs: Seq<FrameView>)
    requires
        first_frame_error(fs) is None,
    ensures
        frames_bytes(fs).len() == frames_size(fs),
    decreases fs.len(),
{
    if fs.len() > 0 {
        crate::protocol::frame::lemma_frame_size(fs[0]);
        lemma_frames_bytes_len(fs.drop_first());
    }
}

/// A datagram that can be encoded takes exactly its computed size: what
/// `encoded_size` gives is the number of bytes `encode` appends.
pub proof fn lemma_datagram_size(d: DatagramView)
    requires
        datagram_encode_error(d) is None,
    ensures
        datagram_bytes(d).len() == spec_datagram_size(d),
{
    match d.payload {
        DatagramPayloadView::Frames(fs) => lemma_frames_bytes_len(fs),
        DatagramPayloadView::Ack(rs) => crate::protocol::ack::lemma_ack_size(rs),
        DatagramPayloadView::Nack(rs) => crate::protocol::ack::lemma_ack_size(rs),
    }
}

/// A datagram's wire form: its flag byte first; for data, the sequence
/// number as three little-endian bytes, then the frames; for an
/// acknowledgement (positive or negative), the payload right after the flag
/// byte, with no sequence number.
pub proof fn lemma_datagram_wire_layout(d: DatagramView)
    ensures
        datagram_bytes(d).len() >= 1,
        datagram_bytes(d)[0] == d.header.flags.spec_bits(),
        d.payload matches DatagramPayloadView::Frames(fs) ==> ({
            let b = datagram_bytes(d);
            &&& b.len() == 4 + frames_bytes(fs).len()
            &&& b[1] + b[2] * 256 + b[3] * 65536 == d.header.sequence.spec_value() % 0x100_0000
            &&& b.subrange(4, b.len() as int) == frames_bytes(fs)
        }),
        d.payload matches DatagramPayloadView::Ack(rs) ==> datagram_bytes(d).subrange(
            1,
            datagram_bytes(d).len() as int,
        ) == ack_bytes(rs),
        d.payload matches DatagramPayloadView::Nack(rs) ==> datagram_bytes(d).subrange(
            1,
            datagram_bytes(d).len() as int,
        ) == ack_bytes(rs),
{
    lemma_u24_byte_order(d.header.sequence.spec_value());
    let b = datagram_bytes(d);
    match d.payload {
        DatagramPayloadView::Frames(fs) => {
            assert(b.subrange(4, b.len() as int) =~= frames_bytes(fs));
        },
        DatagramPayloadView::Ack(rs) => {
            assert(b.subrange(1, b.len() as int) =~= ack_bytes(rs));
        },
        DatagramPayloadView::Nack(rs) => {
            assert(b.subrange(1, b.len() as int) =~= ack_bytes(rs));
        },
    }
}

} // verus!
