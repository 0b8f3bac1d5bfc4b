//! Acknowledgement and negative-acknowledgement payloads: lists of ranges of
//! datagram sequence numbers.
//!
//! On the wire: the number of records (16-bit big endian), then per record a
//! byte that is 1 for a single number and 0 for a range, the start, and for a
//! range the end (each 24-bit little endian).
use vstd::prelude::*;

use crate::error::{DecodeError, EncodeError};

use super::primitives::{
    lemma_u16_roundtrip, lemma_u24_roundtrip, read_u16, read_u24, read_u8, spec_read_u16,
    spec_read_u24, spec_read_u8, u16_be_bytes, u24_le_bytes, write_u16, write_u24, write_u8,
    ReadResult, lemma_u16_byte_orders, lemma_u24_byte_order,
};
use super::sequence24::{sequence_eq, Sequence24};

verus! {

/// The sequence numbers from `start` to `end`, both included.
#[derive(Debug, Clone, Copy, PartialEq, Eq, Structural)]
pub struct SequenceRange {
    pub start: Sequence24,
    pub end: Sequence24,
}

#[derive(Debug, Clone, PartialEq, Eq)]
pub struct AckNackPayload {
    pub ranges: Vec<SequenceRange>,
}

pub open spec fn record_bytes(r: SequenceRange) -> Seq<u8> {
    if r.start == r.end {
        seq![1u8] + u24_le_bytes(r.start.spec_value())
    } else {
        seq![0u8] + u24_le_bytes(r.start.spec_value()) + u24_le_bytes(r.end.spec_value())
    }
}

pub open spec fn records_bytes(rs: Seq<SequenceRange>) -> Seq<u8>
    decreases rs.len(),
{
    if rs.len() == 0 {
        Seq::empty()
    } else {
        records_bytes(rs.drop_last()) + record_bytes(rs.last())
    }
}

/// The wire form of an acknowledgement payload holding `rs`.
pub open spec fn ack_bytes(rs: Seq<SequenceRange>) -> Seq<u8> {
    u16_be_bytes(rs.len() as u16) + records_bytes(rs)
}

pub open spec fn record_size(r: SequenceRange) -> nat {
    if r.start == r.end {
        4
    } else {
        7
    }
}

pub open spec fn records_size(rs: Seq<SequenceRange>) -> nat
    decreases rs.len(),
{
    if rs.len() == 0 {
        0
    } else {
        records_size(rs.drop_last()) + record_size(rs.last())
    }
}

/// The number of bytes the wire form of `rs` occupies.
pub open spec fn spec_ack_size(rs: Seq<SequenceRange>) -> nat {
    2 + records_size(rs)
}

/// Whether `rs` can be encoded: at most 65535 ranges.
pub open spec fn ack_encodable(rs: Seq<SequenceRange>) -> bool {
    rs.len() <= u16::MAX
}

/// Whether every sequence number in `rs` is a valid 24-bit number.
pub open spec fn ranges_valid(rs: Seq<SequenceRange>) -> bool {
    forall|i: int| 0 <= i < rs.len() ==> (#[trigger] rs[i]).start.valid() && rs[i].end.valid()
}

pub open spec fn spec_read_record(s: Seq<u8>, p: usize) -> ReadResult<SequenceRange> {
    match spec_read_u8(s, p) {
        Err(e) => Err(e),
        Ok((flag, p1)) => match spec_read_u24(s, p1) {
            Err(e) => Err(e),
            Ok((start, p2)) => if flag != 0 {
                Ok(
                    (
                        SequenceRange {
                            start: Sequence24::spec_new(start),
                            end: Sequence24::spec_new(start),
                        },
                        p2,
                    ),
                )
            } else {
                match spec_read_u24(s, p2) {
                    Err(e) => Err(e),
                    Ok((end, p3)) => Ok(
                        (
                            SequenceRange {
                                start: Sequence24::spec_new(start),
                                end: Sequence24::spec_new(end),
                            },
                            p3,
                        ),
                    ),
                }
            },
        },
    }
}

/// Reading `n` records starting at `p`.
pub open spec fn spec_read_records(s: Seq<u8>, p: usize, n: nat) -> ReadResult<
    Seq<SequenceRange>,
>
    decreases n,
{
    if n == 0 {
        Ok((Seq::empty(), p))
    } else {
        match spec_read_records(s, p, (n - 1) as nat) {
            Err(e) => Err(e),
            Ok((rs, q)) => match spec_read_record(s, q) {
                Err(e) => Err(e),
                Ok((r, q2)) => Ok((rs.push(r), q2)),
            },
        }
    }
}

/// Reading an acknowledgement payload at `p`.
pub open spec fn spec_read_ack(s: Seq<u8>, p: usize) -> ReadResult<Seq<SequenceRange>> {
    match spec_read_u16(s, p) {
        Err(e) => Err(e),
        Ok((n, q)) => spec_read_records(s, q, n as nat),
    }
}

fn read_record(s: &[u8], p: usize) -> (r: ReadResult<SequenceRange>)
    ensures
        r == spec_read_record(s@, p),
{
    let (flag, p1) = match read_u8(s, p) {
        Ok(v) => v,
        Err(e) => return Err(e),
    };
    let (start, p2) = match read_u24(s, p1) {
        Ok(v) => v,
        Err(e) => return Err(e),
    };
    if flag != 0 {
        Ok((SequenceRange { start: Sequence24::new(start), end: Sequence24::new(start) }, p2))
    } else {
        let (end, p3) = match read_u24(s, p2) {
            Ok(v) => v,
            Err(e) => return Err(e),
        };
        Ok((SequenceRange { start: Sequence24::new(start), end: Sequence24::new(end) }, p3))
    }
}

fn write_record(out: &mut Vec<u8>, r: &SequenceRange)
    ensures
        final(out)@ == old(out)@ + record_bytes(*r),
{
    if sequence_eq(&r.start, &r.end) {
        write_u8(out, 1);
        write_u24(out, r.start.value());
    } else {
        write_u8(out, 0);
        write_u24(out, r.start.value());
        write_u24(out, r.end.value());
    }
    assert(out@ =~= old(out)@ + record_bytes(*r));
}

impl AckNackPayload {
    /// The number of bytes the wire form of this payload occupies.
    pub fn encoded_size(&self) -> (n: usize)
        requires
            spec_ack_size(self.ranges@) <= usize::MAX,
        ensures
            n == spec_ack_size(self.ranges@),
    {
        let mut n: usize = 2;
        let mut i: usize = 0;
        while i < self.ranges.len()
            invariant
                i <= self.ranges@.len(),
                spec_ack_size(self.ranges@) <= usize::MAX,
                n == 2 + records_size(self.ranges@.take(i as int)),
            decreases self.ranges@.len() - i,
        {
            proof {
                lemma_records_size_prefix(self.ranges@, (i + 1) as nat);
                assert(self.ranges@.take(i + 1).drop_last() =~= self.ranges@.take(i as int));
            }
            if sequence_eq(&self.ranges[i].start, &self.ranges[i].end) {
                n = n + 4;
            } else {
                n = n + 7;
            }
            i = i + 1;
        }
        assert(self.ranges@.take(i as int) =~= self.ranges@);
        n
    }

    /// Appends the wire form of this payload to `out`; fails, writing nothing,
    /// when it holds more than 65535 ranges.
    pub fn encode(&self, out: &mut Vec<u8>) -> (r: Result<(), EncodeError>)
        ensures
            r is Ok <==> ack_encodable(self.ranges@),
            r is Ok ==> final(out)@ == old(out)@ + ack_bytes(self.ranges@),
            r is Err ==> final(out)@ == old(out)@,
            r matches Err(e) ==> e == EncodeError::TooManyAckRanges(self.ranges@.len() as usize),
    {
        let count = self.ranges.len();
        if count > 0xFFFF {
            return Err(EncodeError::TooManyAckRanges(count));
        }
        write_u16(out, count as u16);
        let ghost start = out@;
        let mut i: usize = 0;
        while i < count
            invariant
                count == self.ranges@.len(),
                i <= count,
                out@ == start + records_bytes(self.ranges@.take(i as int)),
            decreases count - i,
        {
            write_record(out, &self.ranges[i]);
            proof {
                assert(self.ranges@.take(i + 1).drop_last() =~= self.ranges@.take(i as int));
                assert(self.ranges@.take(i + 1).last() == self.ranges@[i as int]);
            }
            i = i + 1;
        }
        assert(self.ranges@.take(count as int) =~= self.ranges@);
        assert(out@ =~= old(out)@ + ack_bytes(self.ranges@));
        Ok(())
    }

    /// Reads an acknowledgement payload at position `p` of `s`.
    pub fn decode(s: &[u8], p: usize) -> (r: ReadResult<AckNackPayload>)
        ensures
            match r {
                Ok((a, q)) => spec_read_ack(s@, p) == Ok::<(Seq<SequenceRange>, usize), DecodeError>(
                    (a.ranges@, q),
                ),
                Err(e) => spec_read_ack(s@, p) == Err::<(Seq<SequenceRange>, usize), DecodeError>(
                    e,
                ),
            },
    {
        let (n, mut q) = match read_u16(s, p) {
            Ok(v) => v,
            Err(e) => return Err(e),
        };
        let ghost q0 = q;
        let mut ranges: Vec<SequenceRange> = Vec::new();
        let mut i: u16 = 0;
        while i < n
            invariant
                i <= n,
                spec_read_u16(s@, p) == Ok::<(u16, usize), DecodeError>((n, q0)),
                spec_read_records(s@, q0, i as nat) == Ok::<
                    (Seq<SequenceRange>, usize),
                    DecodeError,
                >((ranges@, q)),
            decreases n - i,
        {
            match read_record(s, q) {
                Ok((r, q2)) => {
                    ranges.push(r);
                    q = q2;
                },
                Err(e) => {
                    proof {
                        assert(spec_read_records(s@, q0, (i + 1) as nat) == Err::<
                            (Seq<SequenceRange>, usize),
                            DecodeError,
                        >(e));
                        lemma_read_records_error_persists(s@, q0, (i + 1) as nat, n as nat);
                    }
                    return Err(e);
                },
            }
            i = i + 1;
        }
        Ok((AckNackPayload { ranges }, q))
    }
}

proof fn lemma_read_records_error_persists(s: Seq<u8>, p: usize, k: nat, n: nat)
    requires
        k <= n,
        spec_read_records(s, p, k) is Err,
    ensures
        spec_read_records(s, p, n) == spec_read_records(s, p, k),
    decreases n - k,
{
    if k < n {
        lemma_read_records_error_persists(s, p, k, (n - 1) as nat);
    }
}

proof fn lemma_records_size_prefix(rs: Seq<SequenceRange>, i: nat)
    requires
        0 < i <= rs.len(),
    ensures
        records_size(rs.take(i as int)) <= records_size(rs),
        records_size(rs.take(i as int)) == records_size(rs.take(i - 1)) + record_size(
            rs[i - 1],
        ),
    decreases rs.len() - i,
{
    assert(rs.take(i as int).drop_last() =~= rs.take(i - 1));
    if i < rs.len() {
        lemma_records_size_prefix(rs, i + 1);
    } else {
        assert(rs.take(i as int) =~= rs);
    }
}

proof fn lemma_record_roundtrip(r: SequenceRange, s: Seq<u8>, p: usize)
    requires
        r.start.valid(),
        r.end.valid(),
        p + record_bytes(r).len() <= s.len(),
        p + record_bytes(r).len() <= usize::MAX,
        s.subrange(p as int, p + record_bytes(r).len()) == record_bytes(r),
    ensures
        spec_read_record(s, p) == Ok::<(SequenceRange, usize), DecodeError>(
            (r, (p + record_bytes(r).len()) as usize),
        ),
{
    let b = record_bytes(r);
    let t = s.subrange(p as int, p + b.len());
    assert(s[p as int] == t[0]);
    lemma_u24_roundtrip(r.start.spec_value());
    lemma_u24_roundtrip(r.end.spec_value());
    Sequence24::lemma_spec_new_of_value(r.start);
    Sequence24::lemma_spec_new_of_value(r.end);
    assert(s.subrange(p + 1, p + 4) =~= t.subrange(1, 4));
    assert(b.subrange(1, 4) =~= u24_le_bytes(r.start.spec_value()));
    if r.start != r.end {
        assert(s.subrange(p + 4, p + 7) =~= t.subrange(4, 7));
        assert(b.subrange(4, 7) =~= u24_le_bytes(r.end.spec_value()));
    }
}

proof fn lemma_records_roundtrip(rs: Seq<SequenceRange>, s: Seq<u8>, p: usize)
    requires
        ranges_valid(rs),
        p + records_bytes(rs).len() <= s.len(),
        p + records_bytes(rs).len() <= usize::MAX,
        s.subrange(p as int, p + records_bytes(rs).len()) == records_bytes(rs),
    ensures
        spec_read_records(s, p, rs.len()) == Ok::<(Seq<SequenceRange>, usize), DecodeError>(
            (rs, (p + records_bytes(rs).len()) as usize),
        ),
    decreases rs.len(),
{
    if rs.len() == 0 {
        assert(rs =~= Seq::<SequenceRange>::empty());
    } else {
        let init = rs.drop_last();
        let last = rs.last();
        let ib = records_bytes(init);
        let lb = record_bytes(last);
        assert(records_bytes(rs) == ib + lb);
        assert(ranges_valid(init)) by {
            assert forall|i: int| 0 <= i < init.len() implies (#[trigger] init[i]).start.valid()
                && init[i].end.valid() by {
                assert(init[i] == rs[i]);
            }
        }
        assert(s.subrange(p as int, p + ib.len()) =~= s.subrange(
            p as int,
            p + records_bytes(rs).len(),
        ).subrange(0, ib.len() as int));
        assert(s.subrange(p as int, p + ib.len()) =~= ib);
        lemma_records_roundtrip(init, s, p);
        assert(last == rs[rs.len() - 1]);
        let q = (p + ib.len()) as usize;
        let whole = s.subrange(p as int, p + records_bytes(rs).len());
        assert(whole =~= ib + lb);
        assert(s.subrange(q as int, q + lb.len()) =~= whole.subrange(
            ib.len() as int,
            (ib.len() + lb.len()) as int,
        ));
        assert(whole.subrange(ib.len() as int, (ib.len() + lb.len()) as int) =~= lb);
        lemma_record_roundtrip(last, s, q);
        assert(init.push(last) =~= rs);
    }
}

/// Reading at `p` where the wire form of an encodable list of valid ranges
/// stands gives the list back and stops where its wire form ends.
pub proof fn lemma_ack_roundtrip_at(rs: Seq<SequenceRange>, s: Seq<u8>, p: usize)
    requires
        ack_encodable(rs),
        ranges_valid(rs),
        p + ack_bytes(rs).len() <= s.len(),
        p + ack_bytes(rs).len() <= usize::MAX,
        s.subrange(p as int, p + ack_bytes(rs).len()) == ack_bytes(rs),
    ensures
        spec_read_ack(s, p) == Ok::<(Seq<SequenceRange>, usize), DecodeError>(
            (rs, (p + ack_bytes(rs).len()) as usize),
        ),
{
    let n = rs.len() as u16;
    let ab = ack_bytes(rs);
    let t = s.subrange(p as int, p + ab.len());
    lemma_u16_roundtrip(n);
    assert(s.subrange(p as int, p + 2) =~= t.subrange(0, 2));
    assert(t.subrange(0, 2) =~= u16_be_bytes(n));
    let rb = records_bytes(rs);
    assert(s.subrange(p + 2, p + 2 + rb.len()) =~= t.subrange(2, ab.len() as int));
    assert(t.subrange(2, ab.len() as int) =~= rb);
    lemma_records_roundtrip(rs, s, (p + 2) as usize);
}

/// Decoding the wire form of an encodable list of valid ranges, whatever
/// follows it, gives the list back and stops where its wire form ends.
pub proof fn lemma_ack_roundtrip(rs: Seq<SequenceRange>, rest: Seq<u8>)
    requires
        ack_encodable(rs),
        ranges_valid(rs),
    ensures
        spec_read_ack(ack_bytes(rs) + rest, 0) == Ok::<(Seq<SequenceRange>, usize), DecodeError>(
            (rs, ack_bytes(rs).len() as usize),
        ),
{
    let s = ack_bytes(rs) + rest;
    let n = rs.len() as u16;
    lemma_u16_roundtrip(n);
    assert(s.subrange(0, 2) =~= u16_be_bytes(n));
    let rb = records_bytes(rs);
    lemma_records_len(rs);
    lemma_records_size_bound(rs);
    assert(s.subrange(2, 2 + rb.len() as int) =~= rb);
    lemma_records_roundtrip(rs, s, 2);
}

/// The wire form of `rs` is `spec_ack_size(rs)` bytes long.
pub proof fn lemma_ack_size(rs: Seq<SequenceRange>)
    ensures
        ack_bytes(rs).len() == spec_ack_size(rs),
    decreases rs.len(),
{
    lemma_records_len(rs);
}

pub proof fn lemma_records_size_bound(rs: Seq<SequenceRange>)
    ensures
        records_size(rs) <= 7 * rs.len(),
    decreases rs.len(),
{
    if rs.len() > 0 {
        lemma_records_size_bound(rs.drop_last());
    }
}

pub proof fn lemma_records_len(rs: Seq<SequenceRange>)
    ensures
        records_bytes(rs).len() == records_size(rs),
    decreases rs.len(),
{
    if rs.len() > 0 {
        lemma_records_len(rs.drop_last());
    }
}

/// An acknowledgement payload's wire form: the number of records as two
/// big-endian bytes, then the records in order. A record of one sequence
/// number is the byte 1 and that number (three bytes, little endian); a
/// record of a range is the byte 0, then its start and its end (three bytes
/// each, little endian).
pub proof fn lemma_ack_wire_layout(rs: Seq<SequenceRange>, r: SequenceRange)
    ensures
        ack_bytes(rs).len() >= 2,
        rs.len() < 0x1_0000 ==> ack_bytes(rs)[0] * 256 + ack_bytes(rs)[1] == rs.len(),
        ack_bytes(rs).subrange(2, ack_bytes(rs).len() as int) == records_bytes(rs),
        records_bytes(rs.push(r)) == records_bytes(rs) + record_bytes(r),
        records_bytes(seq![r]) == record_bytes(r),
        r.start == r.end ==> {
            let b = record_bytes(r);
            &&& b.len() == 4
            &&& b[0] == 1u8
            &&& b[1] + b[2] * 256 + b[3] * 65536 == r.start.spec_value() % 0x100_0000
        },
        r.start != r.end ==> {
            let b = record_bytes(r);
            &&& b.len() == 7
            &&& b[0] == 0u8
            &&& b[1] + b[2] * 256 + b[3] * 65536 == r.start.spec_value() % 0x100_0000
            &&& b[4] + b[5] * 256 + b[6] * 65536 == r.end.spec_value() % 0x100_0000
        },
{
    let n = rs.len() as u16;
    lemma_u16_byte_orders(n);
    lemma_u24_byte_order(r.start.spec_value());
    lemma_u24_byte_order(r.end.spec_value());
    assert(ack_bytes(rs).subrange(2, ack_bytes(rs).len() as int) =~= records_bytes(rs));
    assert(rs.push(r).drop_last() =~= rs);
    assert(seq![r].drop_last() =~= Seq::<SequenceRange>::empty());
    assert(seq![r].last() == r);
    assert(records_bytes(Seq::<SequenceRange>::empty()) =~= Seq::<u8>::empty());
    assert(records_bytes(seq![r]) == records_bytes(seq![r].drop_last()) + record_bytes(r));
    assert(records_bytes(seq![r]) =~= record_bytes(r));
}

} // verus!
