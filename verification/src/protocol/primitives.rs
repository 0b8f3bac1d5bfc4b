//! The wire forms of RakNet's primitive fields: big-endian integers, 24-bit
//! little-endian integers, booleans, the 16-byte offline magic and socket
//! addresses. Readers work on a byte slice at a position and return the value
//! with the position after it; writers append to a vector.
use vstd::prelude::*;

use crate::error::DecodeError;
use crate::net::SocketAddr;

verus! {

/// The 16-byte marker that every offline packet carries.
pub type Magic = [u8; 16];

/// The result of reading a value at a position: the value and the position after it.
pub type ReadResult<T> = Result<(T, usize), DecodeError>;

// ---------------------------------------------------------------------------
// Byte forms of values
// ---------------------------------------------------------------------------

pub open spec fn u16_be_bytes(x: u16) -> Seq<u8> {
    seq![(x >> 8u16) as u8, x as u8]
}

pub open spec fn u16_le_bytes(x: u16) -> Seq<u8> {
    seq![x as u8, (x >> 8u16) as u8]
}

pub open spec fn u24_le_bytes(x: u32) -> Seq<u8> {
    seq![x as u8, (x >> 8u32) as u8, (x >> 16u32) as u8]
}

pub open spec fn u32_be_bytes(x: u32) -> Seq<u8> {
    seq![(x >> 24u32) as u8, (x >> 16u32) as u8, (x >> 8u32) as u8, x as u8]
}

pub open spec fn u64_be_bytes(x: u64) -> Seq<u8> {
    seq![
        (x >> 56u64) as u8,
        (x >> 48u64) as u8,
        (x >> 40u64) as u8,
        (x >> 32u64) as u8,
        (x >> 24u64) as u8,
        (x >> 16u64) as u8,
        (x >> 8u64) as u8,
        x as u8,
    ]
}

pub open spec fn u128_be_bytes(x: u128) -> Seq<u8> {
    u64_be_bytes((x >> 64u128) as u64) + u64_be_bytes(x as u64)
}

pub open spec fn bool_bytes(b: bool) -> Seq<u8> {
    seq![if b { 1u8 } else { 0u8 }]
}

pub open spec fn u16_from_be(b: Seq<u8>) -> u16 {
    ((b[0] as u16) << 8u16) | (b[1] as u16)
}

pub open spec fn u16_from_le(b: Seq<u8>) -> u16 {
    ((b[1] as u16) << 8u16) | (b[0] as u16)
}

pub open spec fn u24_from_le(b: Seq<u8>) -> u32 {
    ((b[2] as u32) << 16u32) | ((b[1] as u32) << 8u32) | (b[0] as u32)
}

pub open spec fn u32_from_be(b: Seq<u8>) -> u32 {
    ((b[0] as u32) << 24u32) | ((b[1] as u32) << 16u32) | ((b[2] as u32) << 8u32) | (b[3] as u32)
}

pub open spec fn u64_from_be(b: Seq<u8>) -> u64 {
    ((b[0] as u64) << 56u64) | ((b[1] as u64) << 48u64) | ((b[2] as u64) << 40u64) | ((
    b[3] as u64) << 32u64) | ((b[4] as u64) << 24u64) | ((b[5] as u64) << 16u64) | ((
    b[6] as u64) << 8u64) | (b[7] as u64)
}

pub open spec fn u128_from_be(b: Seq<u8>) -> u128 {
    ((u64_from_be(b.subrange(0, 8)) as u128) << 64u128) | (u64_from_be(b.subrange(8, 16)) as u128)
}

/// The magic whose bytes are `s[p..p + 16]`.
pub open spec fn magic_at(s: Seq<u8>, p: int) -> Magic {
    [
        s[p],
        s[p + 1],
        s[p + 2],
        s[p + 3],
        s[p + 4],
        s[p + 5],
        s[p + 6],
        s[p + 7],
        s[p + 8],
        s[p + 9],
        s[p + 10],
        s[p + 11],
        s[p + 12],
        s[p + 13],
        s[p + 14],
        s[p + 15],
    ]
}

/// The address family code written in front of an IPv6 socket address.
pub open spec fn ipv6_family_code() -> u16 {
    23
}

/// The wire form of a socket address: a version byte, then for IPv4 the
/// complemented address bytes and the port, for IPv6 the family code (little
/// endian), port, flow label, address and scope id.
pub open spec fn addr_bytes(a: SocketAddr) -> Seq<u8> {
    match a {
        SocketAddr::V4 { ip, port } => seq![
            4u8,
            !((ip >> 24u32) as u8),
            !((ip >> 16u32) as u8),
            !((ip >> 8u32) as u8),
            !(ip as u8),
        ] + u16_be_bytes(port),
        SocketAddr::V6 { ip, port, flowinfo, scope_id } => seq![6u8] + u16_le_bytes(
            ipv6_family_code(),
        ) + u16_be_bytes(port) + u32_be_bytes(flowinfo) + u128_be_bytes(ip) + u32_be_bytes(
            scope_id,
        ),
    }
}

// ---------------------------------------------------------------------------
// Reading
// ---------------------------------------------------------------------------

pub open spec fn spec_read_u8(s: Seq<u8>, p: usize) -> ReadResult<u8> {
    if p + 1 <= s.len() {
        Ok((s[p as int], (p + 1) as usize))
    } else {
        Err(DecodeError::UnexpectedEof)
    }
}

pub open spec fn spec_read_bool(s: Seq<u8>, p: usize) -> ReadResult<bool> {
    if p + 1 <= s.len() {
        Ok((s[p as int] != 0, (p + 1) as usize))
    } else {
        Err(DecodeError::UnexpectedEof)
    }
}

pub open spec fn spec_read_u16(s: Seq<u8>, p: usize) -> ReadResult<u16> {
    if p + 2 <= s.len() {
        Ok((u16_from_be(s.subrange(p as int, p + 2)), (p + 2) as usize))
    } else {
        Err(DecodeError::UnexpectedEof)
    }
}

pub open spec fn spec_read_u24(s: Seq<u8>, p: usize) -> ReadResult<u32> {
    if p + 3 <= s.len() {
        Ok((u24_from_le(s.subrange(p as int, p + 3)), (p + 3) as usize))
    } else {
        Err(DecodeError::UnexpectedEof)
    }
}

pub open spec fn spec_read_u32(s: Seq<u8>, p: usize) -> ReadResult<u32> {
    if p + 4 <= s.len() {
        Ok((u32_from_be(s.subrange(p as int, p + 4)), (p + 4) as usize))
    } else {
        Err(DecodeError::UnexpectedEof)
    }
}

pub open spec fn spec_read_u64(s: Seq<u8>, p: usize) -> ReadResult<u64> {
    if p + 8 <= s.len() {
        Ok((u64_from_be(s.subrange(p as int, p + 8)), (p + 8) as usize))
    } else {
        Err(DecodeError::UnexpectedEof)
    }
}

pub open spec fn spec_read_i64(s: Seq<u8>, p: usize) -> ReadResult<i64> {
    if p + 8 <= s.len() {
        Ok((u64_from_be(s.subrange(p as int, p + 8)) as i64, (p + 8) as usize))
    } else {
        Err(DecodeError::UnexpectedEof)
    }
}

pub open spec fn spec_read_magic(s: Seq<u8>, p: usize) -> ReadResult<Magic> {
    if p + 16 <= s.len() {
        Ok((magic_at(s, p as int), (p + 16) as usize))
    } else {
        Err(DecodeError::UnexpectedEof)
    }
}

pub open spec fn spec_read_addr(s: Seq<u8>, p: usize) -> ReadResult<SocketAddr> {
    if p + 1 > s.len() {
        Err(DecodeError::UnexpectedEof)
    } else if s[p as int] == 4 {
        if p + 7 <= s.len() {
            Ok(
                (
                    SocketAddr::V4 {
                        ip: ((!s[p + 1] as u32) << 24u32) | ((!s[p + 2] as u32) << 16u32) | ((
                        !s[p + 3] as u32) << 8u32) | (!s[p + 4] as u32),
                        port: u16_from_be(s.subrange(p + 5, p + 7)),
                    },
                    (p + 7) as usize,
                ),
            )
        } else {
            Err(DecodeError::UnexpectedEof)
        }
    } else if s[p as int] == 6 {
        if p + 29 <= s.len() {
            Ok(
                (
                    SocketAddr::V6 {
                        port: u16_from_be(s.subrange(p + 3, p + 5)),
                        flowinfo: u32_from_be(s.subrange(p + 5, p + 9)),
                        ip: u128_from_be(s.subrange(p + 9, p + 25)),
                        scope_id: u32_from_be(s.subrange(p + 25, p + 29)),
                    },
                    (p + 29) as usize,
                ),
            )
        } else {
            Err(DecodeError::UnexpectedEof)
        }
    } else {
        Err(DecodeError::InvalidAddressVersion(s[p as int]))
    }
}

pub fn read_u8(s: &[u8], p: usize) -> (r: ReadResult<u8>)
    ensures
        r == spec_read_u8(s@, p),
{
    if p < s.len() {
        Ok((s[p], p + 1))
    } else {
        Err(DecodeError::UnexpectedEof)
    }
}

pub fn read_bool(s: &[u8], p: usize) -> (r: ReadResult<bool>)
    ensures
        r == spec_read_bool(s@, p),
{
    if p < s.len() {
        Ok((s[p] != 0, p + 1))
    } else {
        Err(DecodeError::UnexpectedEof)
    }
}

pub fn read_u16(s: &[u8], p: usize) -> (r: ReadResult<u16>)
    ensures
        r == spec_read_u16(s@, p),
{
    if p <= s.len() && 2 <= s.len() - p {
        let v = ((s[p] as u16) << 8u16) | (s[p + 1] as u16);
        assert(v == u16_from_be(s@.subrange(p as int, p + 2)));
        Ok((v, p + 2))
    } else {
        Err(DecodeError::UnexpectedEof)
    }
}

pub fn read_u24(s: &[u8], p: usize) -> (r: ReadResult<u32>)
    ensures
        r == spec_read_u24(s@, p),
{
    if p <= s.len() && 3 <= s.len() - p {
        let v = ((s[p + 2] as u32) << 16u32) | ((s[p + 1] as u32) << 8u32) | (s[p] as u32);
        assert(v == u24_from_le(s@.subrange(p as int, p + 3)));
        Ok((v, p + 3))
    } else {
        Err(DecodeError::UnexpectedEof)
    }
}

pub fn read_u32(s: &[u8], p: usize) -> (r: ReadResult<u32>)
    ensures
        r == spec_read_u32(s@, p),
{
    if p <= s.len() && 4 <= s.len() - p {
        let v = ((s[p] as u32) << 24u32) | ((s[p + 1] as u32) << 16u32) | ((s[p + 2] as u32)
            << 8u32) | (s[p + 3] as u32);
        assert(v == u32_from_be(s@.subrange(p as int, p + 4)));
        Ok((v, p + 4))
    } else {
        Err(DecodeError::UnexpectedEof)
    }
}

pub fn read_u64(s: &[u8], p: usize) -> (r: ReadResult<u64>)
    ensures
        r == spec_read_u64(s@, p),
{
    if p <= s.len() && 8 <= s.len() - p {
        let v = ((s[p] as u64) << 56u64) | ((s[p + 1] as u64) << 48u64) | ((s[p + 2] as u64)
            << 40u64) | ((s[p + 3] as u64) << 32u64) | ((s[p + 4] as u64) << 24u64) | ((s[p
            + 5] as u64) << 16u64) | ((s[p + 6] as u64) << 8u64) | (s[p + 7] as u64);
        assert(v == u64_from_be(s@.subrange(p as int, p + 8)));
        Ok((v, p + 8))
    } else {
        Err(DecodeError::UnexpectedEof)
    }
}

pub fn read_i64(s: &[u8], p: usize) -> (r: ReadResult<i64>)
    ensures
        r == spec_read_i64(s@, p),
{
    match read_u64(s, p) {
        Ok((v, q)) => Ok((v as i64, q)),
        Err(e) => Err(e),
    }
}

pub fn read_magic(s: &[u8], p: usize) -> (r: ReadResult<Magic>)
    ensures
        r == spec_read_magic(s@, p),
{
    if p <= s.len() && 16 <= s.len() - p {
        let m: Magic = [
            s[p],
            s[p + 1],
            s[p + 2],
            s[p + 3],
            s[p + 4],
            s[p + 5],
            s[p + 6],
            s[p + 7],
            s[p + 8],
            s[p + 9],
            s[p + 10],
            s[p + 11],
            s[p + 12],
            s[p + 13],
            s[p + 14],
            s[p + 15],
        ];
        Ok((m, p + 16))
    } else {
        Err(DecodeError::UnexpectedEof)
    }
}

fn read_u128(s: &[u8], p: usize) -> (r: u128)
    requires
        p + 16 <= s.len(),
    ensures
        r == u128_from_be(s@.subrange(p as int, p + 16)),
{
    let hi = match read_u64(s, p) {
        Ok((v, _)) => v,
        Err(_) => 0,
    };
    let lo = match read_u64(s, p + 8) {
        Ok((v, _)) => v,
        Err(_) => 0,
    };
    let ghost b = s@.subrange(p as int, p + 16);
    assert(b.subrange(0, 8) =~= s@.subrange(p as int, p + 8));
    assert(b.subrange(8, 16) =~= s@.subrange(p + 8, p + 16));
    ((hi as u128) << 64u128) | (lo as u128)
}

pub fn read_addr(s: &[u8], p: usize) -> (r: ReadResult<SocketAddr>)
    ensures
        r == spec_read_addr(s@, p),
{
    if p >= s.len() {
        return Err(DecodeError::UnexpectedEof);
    }
    let version = s[p];
    if version == 4 {
        if s.len() - p >= 7 {
            let ip = ((!s[p + 1] as u32) << 24u32) | ((!s[p + 2] as u32) << 16u32) | ((!s[p
                + 3] as u32) << 8u32) | (!s[p + 4] as u32);
            let port = match read_u16(s, p + 5) {
                Ok((v, _)) => v,
                Err(_) => 0,
            };
            Ok((SocketAddr::V4 { ip, port }, p + 7))
        } else {
            Err(DecodeError::UnexpectedEof)
        }
    } else if version == 6 {
        if s.len() - p >= 29 {
            let port = match read_u16(s, p + 3) {
                Ok((v, _)) => v,
                Err(_) => 0,
            };
            let flowinfo = match read_u32(s, p + 5) {
                Ok((v, _)) => v,
                Err(_) => 0,
            };
            let ip = read_u128(s, p + 9);
            let scope_id = match read_u32(s, p + 25) {
                Ok((v, _)) => v,
                Err(_) => 0,
            };
            Ok((SocketAddr::V6 { ip, port, flowinfo, scope_id }, p + 29))
        } else {
            Err(DecodeError::UnexpectedEof)
        }
    } else {
        Err(DecodeError::InvalidAddressVersion(version))
    }
}

/// Equality of two magics, byte by byte.
pub fn magic_eq(a: &Magic, b: &Magic) -> (r: bool)
    ensures
        r == (*a == *b),
{
    let mut i: usize = 0;
    while i < 16
        invariant
            i <= 16,
            forall|j: int| 0 <= j < i ==> a@[j] == b@[j],
        decreases 16 - i,
    {
        if a[i] != b[i] {
            return false;
        }
        i = i + 1;
    }
    proof {
        broadcast use vstd::array::axiom_array_ext_equal;

        assert(*a =~= *b);
    }
    true
}

// ---------------------------------------------------------------------------
// Writing
// ---------------------------------------------------------------------------

pub fn write_u8(out: &mut Vec<u8>, x: u8)
    ensures
        final(out)@ == old(out)@.push(x),
{
    out.push(x);
}

pub fn write_bool(out: &mut Vec<u8>, b: bool)
    ensures
        final(out)@ == old(out)@ + bool_bytes(b),
{
    out.push(if b { 1u8 } else { 0u8 });
    assert(out@ =~= old(out)@ + bool_bytes(b));
}

pub fn write_u16(out: &mut Vec<u8>, x: u16)
    ensures
        final(out)@ == old(out)@ + u16_be_bytes(x),
{
    out.push((x >> 8u16) as u8);
    out.push(x as u8);
    assert(out@ =~= old(out)@ + u16_be_bytes(x));
}

pub fn write_u16_le(out: &mut Vec<u8>, x: u16)
    ensures
        final(out)@ == old(out)@ + u16_le_bytes(x),
{
    out.push(x as u8);
    out.push((x >> 8u16) as u8);
    assert(out@ =~= old(out)@ + u16_le_bytes(x));
}

pub fn write_u24(out: &mut Vec<u8>, x: u32)
    ensures
        final(out)@ == old(out)@ + u24_le_bytes(x),
{
    out.push(x as u8);
    out.push((x >> 8u32) as u8);
    out.push((x >> 16u32) as u8);
    assert(out@ =~= old(out)@ + u24_le_bytes(x));
}

pub fn write_u32(out: &mut Vec<u8>, x: u32)
    ensures
        final(out)@ == old(out)@ + u32_be_bytes(x),
{
    out.push((x >> 24u32) as u8);
    out.push((x >> 16u32) as u8);
    out.push((x >> 8u32) as u8);
    out.push(x as u8);
    assert(out@ =~= old(out)@ + u32_be_bytes(x));
}

pub fn write_u64(out: &mut Vec<u8>, x: u64)
    ensures
        final(out)@ == old(out)@ + u64_be_bytes(x),
{
    out.push((x >> 56u64) as u8);
    out.push((x >> 48u64) as u8);
    out.push((x >> 40u64) as u8);
    out.push((x >> 32u64) as u8);
    out.push((x >> 24u64) as u8);
    out.push((x >> 16u64) as u8);
    out.push((x >> 8u64) as u8);
    out.push(x as u8);
    assert(out@ =~= old(out)@ + u64_be_bytes(x));
}

pub fn write_i64(out: &mut Vec<u8>, x: i64)
    ensures
        final(out)@ == old(out)@ + u64_be_bytes(x as u64),
{
    write_u64(out, x as u64);
}

pub fn write_bytes(out: &mut Vec<u8>, b: &[u8])
    ensures
        final(out)@ == old(out)@ + b@,
{
    let mut i: usize = 0;
    while i < b.len()
        invariant
            i <= b@.len(),
            out@ == old(out)@ + b@.subrange(0, i as int),
        decreases b@.len() - i,
    {
        out.push(b[i]);
        i = i + 1;
        assert(out@ =~= old(out)@ + b@.subrange(0, i as int));
    }
    assert(b@.subrange(0, b@.len() as int) =~= b@);
}

pub fn write_magic(out: &mut Vec<u8>, m: &Magic)
    ensures
        final(out)@ == old(out)@ + m@,
{
    write_bytes(out, m.as_slice());
}

pub fn write_addr(out: &mut Vec<u8>, a: &SocketAddr)
    ensures
        final(out)@ == old(out)@ + addr_bytes(*a),
{
    match *a {
        SocketAddr::V4 { ip, port } => {
            out.push(4u8);
            out.push(!((ip >> 24u32) as u8));
            out.push(!((ip >> 16u32) as u8));
            out.push(!((ip >> 8u32) as u8));
            out.push(!(ip as u8));
            write_u16(out, port);
            assert(out@ =~= old(out)@ + addr_bytes(*a));
        },
        SocketAddr::V6 { ip, port, flowinfo, scope_id } => {
            out.push(6u8);
            write_u16_le(out, 23);
            write_u16(out, port);
            write_u32(out, flowinfo);
            write_u64(out, (ip >> 64u128) as u64);
            write_u64(out, ip as u64);
            write_u32(out, scope_id);
            assert(out@ =~= old(out)@ + addr_bytes(*a));
        },
    }
}

// ---------------------------------------------------------------------------
// Reading back what was written
// ---------------------------------------------------------------------------

pub proof fn lemma_u16_roundtrip(x: u16)
    ensures
        u16_from_be(u16_be_bytes(x)) == x,
        u16_from_le(u16_le_bytes(x)) == x,
{
    let b0 = (x >> 8u16) as u8;
    let b1 = x as u8;
    assert((((b0 as u16) << 8u16) | (b1 as u16)) == x) by (bit_vector)
        requires
            b0 == (x >> 8u16) as u8,
            b1 == x as u8,
    ;
}

pub proof fn lemma_u24_roundtrip(x: u32)
    requires
        x < 0x1000000,
    ensures
        u24_from_le(u24_le_bytes(x)) == x,
{
    let b0 = x as u8;
    let b1 = (x >> 8u32) as u8;
    let b2 = (x >> 16u32) as u8;
    assert((((b2 as u32) << 16u32) | ((b1 as u32) << 8u32) | (b0 as u32)) == x) by (bit_vector)
        requires
            x < 0x1000000,
            b0 == x as u8,
            b1 == (x >> 8u32) as u8,
            b2 == (x >> 16u32) as u8,
    ;
}

pub proof fn lemma_u32_roundtrip(x: u32)
    ensures
        u32_from_be(u32_be_bytes(x)) == x,
{
    let b0 = (x >> 24u32) as u8;
    let b1 = (x >> 16u32) as u8;
    let b2 = (x >> 8u32) as u8;
    let b3 = x as u8;
    assert((((b0 as u32) << 24u32) | ((b1 as u32) << 16u32) | ((b2 as u32) << 8u32) | (
    b3 as u32)) == x) by (bit_vector)
        requires
            b0 == (x >> 24u32) as u8,
            b1 == (x >> 16u32) as u8,
            b2 == (x >> 8u32) as u8,
            b3 == x as u8,
    ;
}

pub proof fn lemma_u64_roundtrip(x: u64)
    ensures
        u64_from_be(u64_be_bytes(x)) == x,
{
    let b0 = (x >> 56u64) as u8;
    let b1 = (x >> 48u64) as u8;
    let b2 = (x >> 40u64) as u8;
    let b3 = (x >> 32u64) as u8;
    let b4 = (x >> 24u64) as u8;
    let b5 = (x >> 16u64) as u8;
    let b6 = (x >> 8u64) as u8;
    let b7 = x as u8;
    assert((((b0 as u64) << 56u64) | ((b1 as u64) << 48u64) | ((b2 as u64) << 40u64) | ((
    b3 as u64) << 32u64) | ((b4 as u64) << 24u64) | ((b5 as u64) << 16u64) | ((b6 as u64)
        << 8u64) | (b7 as u64)) == x) by (bit_vector)
        requires
            b0 == (x >> 56u64) as u8,
            b1 == (x >> 48u64) as u8,
            b2 == (x >> 40u64) as u8,
            b3 == (x >> 32u64) as u8,
            b4 == (x >> 24u64) as u8,
            b5 == (x >> 16u64) as u8,
            b6 == (x >> 8u64) as u8,
            b7 == x as u8,
    ;
}

pub proof fn lemma_i64_roundtrip(x: i64)
    ensures
        (u64_from_be(u64_be_bytes(x as u64)) as i64) == x,
{
    lemma_u64_roundtrip(x as u64);
    assert(((x as u64) as i64) == x) by (bit_vector);
}

pub proof fn lemma_u128_roundtrip(x: u128)
    ensures
        u128_from_be(u128_be_bytes(x)) == x,
{
    let hi = (x >> 64u128) as u64;
    let lo = x as u64;
    lemma_u64_roundtrip(hi);
    lemma_u64_roundtrip(lo);
    let b = u128_be_bytes(x);
    assert(b.subrange(0, 8) =~= u64_be_bytes(hi));
    assert(b.subrange(8, 16) =~= u64_be_bytes(lo));
    assert((((hi as u128) << 64u128) | (lo as u128)) == x) by (bit_vector)
        requires
            hi == (x >> 64u128) as u64,
            lo == x as u64,
    ;
}

proof fn lemma_addr_v4_roundtrip(s: Seq<u8>, p: usize, ip: u32, port: u16)
    requires
        p + 7 <= s.len(),
        s.subrange(p as int, p + 7) == addr_bytes(SocketAddr::V4 { ip, port }),
    ensures
        spec_read_addr(s, p) == Ok::<(SocketAddr, usize), DecodeError>(
            (SocketAddr::V4 { ip, port }, (p + 7) as usize),
        ),
{
    let b = addr_bytes(SocketAddr::V4 { ip, port });
    let c0 = !((ip >> 24u32) as u8);
    let c1 = !((ip >> 16u32) as u8);
    let c2 = !((ip >> 8u32) as u8);
    let c3 = !(ip as u8);
    assert(b =~= seq![4u8, c0, c1, c2, c3, (port >> 8u16) as u8, port as u8]);
    assert(s.subrange(p as int, p + 7)[0] == s[p as int]);
    assert(s.subrange(p as int, p + 7)[1] == s[p + 1]);
    assert(s.subrange(p as int, p + 7)[2] == s[p + 2]);
    assert(s.subrange(p as int, p + 7)[3] == s[p + 3]);
    assert(s.subrange(p as int, p + 7)[4] == s[p + 4]);
    assert(s[p as int] == 4);
    assert(s[p + 1] == c0 && s[p + 2] == c1 && s[p + 3] == c2 && s[p + 4] == c3);
    assert((((!c0) as u32) << 24u32) | (((!c1) as u32) << 16u32) | (((!c2) as u32) << 8u32) | ((
    !c3) as u32) == ip) by (bit_vector)
        requires
            c0 == !((ip >> 24u32) as u8),
            c1 == !((ip >> 16u32) as u8),
            c2 == !((ip >> 8u32) as u8),
            c3 == !(ip as u8),
    ;
    assert(s.subrange(p + 5, p + 7) =~= u16_be_bytes(port));
    lemma_u16_roundtrip(port);
}

proof fn lemma_addr_v6_roundtrip(
    s: Seq<u8>,
    p: usize,
    ip: u128,
    port: u16,
    flowinfo: u32,
    scope_id: u32,
)
    requires
        p + 29 <= s.len(),
        s.subrange(p as int, p + 29) == addr_bytes(SocketAddr::V6 { ip, port, flowinfo, scope_id }),
    ensures
        spec_read_addr(s, p) == Ok::<(SocketAddr, usize), DecodeError>(
            (SocketAddr::V6 { ip, port, flowinfo, scope_id }, (p + 29) as usize),
        ),
{
    let b = addr_bytes(SocketAddr::V6 { ip, port, flowinfo, scope_id });
    let a0 = seq![6u8];
    let a1 = u16_le_bytes(ipv6_family_code());
    let a2 = u16_be_bytes(port);
    let a3 = u32_be_bytes(flowinfo);
    let a4 = u128_be_bytes(ip);
    let a5 = u32_be_bytes(scope_id);
    assert(b == a0 + a1 + a2 + a3 + a4 + a5);
    assert(b.subrange(3, 5) =~= a2);
    assert(b.subrange(5, 9) =~= a3);
    assert(b.subrange(9, 25) =~= a4);
    assert(b.subrange(25, 29) =~= a5);
    assert(s.subrange(p as int, p + 29)[0] == s[p as int]);
    assert(s[p as int] == 6);
    assert(s.subrange(p + 3, p + 5) =~= b.subrange(3, 5));
    assert(s.subrange(p + 5, p + 9) =~= b.subrange(5, 9));
    assert(s.subrange(p + 9, p + 25) =~= b.subrange(9, 25));
    assert(s.subrange(p + 25, p + 29) =~= b.subrange(25, 29));
    lemma_u16_roundtrip(port);
    lemma_u32_roundtrip(flowinfo);
    lemma_u32_roundtrip(scope_id);
    lemma_u128_roundtrip(ip);
}

/// Reading a value at `p` where its wire form stands gives the value and the
/// position after it.
pub proof fn lemma_read_u8_at(s: Seq<u8>, p: usize, x: u8)
    requires
        p + 1 <= s.len(),
        p + 1 <= usize::MAX,
        s[p as int] == x,
    ensures
        spec_read_u8(s, p) == Ok::<(u8, usize), DecodeError>((x, (p + 1) as usize)),
{
}

pub proof fn lemma_read_bool_at(s: Seq<u8>, p: usize, b: bool)
    requires
        p + 1 <= s.len(),
        p + 1 <= usize::MAX,
        s.subrange(p as int, p + 1) == bool_bytes(b),
    ensures
        spec_read_bool(s, p) == Ok::<(bool, usize), DecodeError>((b, (p + 1) as usize)),
{
    assert(s[p as int] == s.subrange(p as int, p + 1)[0]);
}

pub proof fn lemma_read_u16_at(s: Seq<u8>, p: usize, x: u16)
    requires
        p + 2 <= s.len(),
        p + 2 <= usize::MAX,
        s.subrange(p as int, p + 2) == u16_be_bytes(x),
    ensures
        spec_read_u16(s, p) == Ok::<(u16, usize), DecodeError>((x, (p + 2) as usize)),
{
    lemma_u16_roundtrip(x);
}

pub proof fn lemma_read_u32_at(s: Seq<u8>, p: usize, x: u32)
    requires
        p + 4 <= s.len(),
        p + 4 <= usize::MAX,
        s.subrange(p as int, p + 4) == u32_be_bytes(x),
    ensures
        spec_read_u32(s, p) == Ok::<(u32, usize), DecodeError>((x, (p + 4) as usize)),
{
    lemma_u32_roundtrip(x);
}

pub proof fn lemma_read_u64_at(s: Seq<u8>, p: usize, x: u64)
    requires
        p + 8 <= s.len(),
        p + 8 <= usize::MAX,
        s.subrange(p as int, p + 8) == u64_be_bytes(x),
    ensures
        spec_read_u64(s, p) == Ok::<(u64, usize), DecodeError>((x, (p + 8) as usize)),
{
    lemma_u64_roundtrip(x);
}

pub proof fn lemma_read_i64_at(s: Seq<u8>, p: usize, x: i64)
    requires
        p + 8 <= s.len(),
        p + 8 <= usize::MAX,
        s.subrange(p as int, p + 8) == u64_be_bytes(x as u64),
    ensures
        spec_read_i64(s, p) == Ok::<(i64, usize), DecodeError>((x, (p + 8) as usize)),
{
    lemma_i64_roundtrip(x);
}

pub proof fn lemma_read_magic_at(s: Seq<u8>, p: usize, m: Magic)
    requires
        p + 16 <= s.len(),
        p + 16 <= usize::MAX,
        s.subrange(p as int, p + 16) == m@,
    ensures
        spec_read_magic(s, p) == Ok::<(Magic, usize), DecodeError>((m, (p + 16) as usize)),
{
    broadcast use vstd::array::axiom_array_ext_equal;

    let got = magic_at(s, p as int);
    assert forall|i: int| 0 <= i < 16 implies got[i] == m[i] by {
        assert(s.subrange(p as int, p + 16)[i] == s[p + i]);
    }
    assert(got =~= m);
}

/// Reading an address back from its wire form gives the address, when the
/// address is followed by anything at all.
pub proof fn lemma_addr_roundtrip(s: Seq<u8>, p: usize, a: SocketAddr)
    requires
        p + addr_bytes(a).len() <= s.len(),
        s.subrange(p as int, p + addr_bytes(a).len()) == addr_bytes(a),
    ensures
        spec_read_addr(s, p) == Ok::<(SocketAddr, usize), DecodeError>(
            (a, (p + addr_bytes(a).len()) as usize),
        ),
{
    match a {
        SocketAddr::V4 { ip, port } => {
            lemma_addr_v4_roundtrip(s, p, ip, port);
        },
        SocketAddr::V6 { ip, port, flowinfo, scope_id } => {
            lemma_addr_v6_roundtrip(s, p, ip, port, flowinfo, scope_id);
        },
    }
}

/// Big-endian two bytes: the high byte first. Little-endian: the low byte
/// first.
pub proof fn lemma_u16_byte_orders(x: u16)
    ensures
        u16_be_bytes(x).len() == 2,
        u16_be_bytes(x)[0] * 256 + u16_be_bytes(x)[1] == x,
        u16_le_bytes(x).len() == 2,
        u16_le_bytes(x)[0] + u16_le_bytes(x)[1] * 256 == x,
{
    assert(((x >> 8u16) as u8) as int * 256 + (x as u8) as int == x) by (bit_vector);
    assert(u16_le_bytes(x) == seq![x as u8, (x >> 8u16) as u8]);
}

/// Three bytes, little endian: the lowest byte first (of the low 24 bits).
pub proof fn lemma_u24_byte_order(x: u32)
    ensures
        u24_le_bytes(x).len() == 3,
        u24_le_bytes(x)[0] + u24_le_bytes(x)[1] * 256 + u24_le_bytes(x)[2] * 65536 == x % 0x100_0000,
{
    assert((x as u8) as int + ((x >> 8u32) as u8) as int * 256 + ((x >> 16u32) as u8) as int * 65536 == x
        % 0x100_0000) by (bit_vector);
}

/// Four bytes, big endian: the highest byte first.
pub proof fn lemma_u32_byte_order(x: u32)
    ensures
        u32_be_bytes(x).len() == 4,
        u32_be_bytes(x)[0] * 0x100_0000 + u32_be_bytes(x)[1] * 0x1_0000 + u32_be_bytes(x)[2] * 0x100
            + u32_be_bytes(x)[3] == x,
{
    assert(((x >> 24u32) as u8) as int * 0x100_0000 + ((x >> 16u32) as u8) as int * 0x1_0000 + ((x
        >> 8u32) as u8) as int * 0x100 + (x as u8) as int == x) by (bit_vector);
}

/// Eight bytes, big endian: the highest byte first.
pub proof fn lemma_u64_byte_order(x: u64)
    ensures
        u64_be_bytes(x).len() == 8,
        u64_be_bytes(x)[0] * 0x100_0000_0000_0000 + u64_be_bytes(x)[1] * 0x1_0000_0000_0000
            + u64_be_bytes(x)[2] * 0x100_0000_0000 + u64_be_bytes(x)[3] * 0x1_0000_0000
            + u64_be_bytes(x)[4] * 0x100_0000 + u64_be_bytes(x)[5] * 0x1_0000 + u64_be_bytes(x)[6]
            * 0x100 + u64_be_bytes(x)[7] == x,
{
    assert(((x >> 56u64) as u8) as int * 0x100_0000_0000_0000 + ((x >> 48u64) as u8) as int
        * 0x1_0000_0000_0000 + ((x >> 40u64) as u8) as int * 0x100_0000_0000 + ((x >> 32u64) as u8) as int
        * 0x1_0000_0000 + ((x >> 24u64) as u8) as int * 0x100_0000 + ((x >> 16u64) as u8) as int
        * 0x1_0000 + ((x >> 8u64) as u8) as int * 0x100 + (x as u8) as int == x) by (bit_vector);
}

} // verus!
