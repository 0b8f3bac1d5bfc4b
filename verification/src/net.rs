//! Internet addresses as plain integers.
use vstd::prelude::*;

use crate::table::TableKey;

verus! {

/// An IPv4 address (as its 32-bit big-endian value) or an IPv6 address (as its
/// 128-bit big-endian value).
#[derive(Debug, Clone, Copy, PartialEq, Eq, Structural)]
pub enum IpAddr {
    V4(u32),
    V6(u128),
}

/// An IPv4 or IPv6 socket address. The IPv6 form keeps its flow label and scope id.
#[allow(inconsistent_fields)]
#[derive(Debug, Clone, Copy, PartialEq, Eq, Structural)]
pub enum SocketAddr {
    V4 { ip: u32, port: u16 },
    V6 { ip: u128, port: u16, flowinfo: u32, scope_id: u32 },
}

/// The 32-bit value of the dotted address `a.b.c.d`.
pub open spec fn ipv4_value(a: u8, b: u8, c: u8, d: u8) -> u32 {
    ((a as u32) << 24u32) | ((b as u32) << 16u32) | ((c as u32) << 8u32) | (d as u32)
}

impl IpAddr {
    /// The IPv4 address `a.b.c.d`.
    pub fn v4(a: u8, b: u8, c: u8, d: u8) -> (ip: IpAddr)
        ensures
            ip == IpAddr::V4(ipv4_value(a, b, c, d)),
    {
        IpAddr::V4(((a as u32) << 24u32) | ((b as u32) << 16u32) | ((c as u32) << 8u32) | (d as u32))
    }
}

impl SocketAddr {
    /// The IPv4 socket address `a.b.c.d:port`.
    pub fn v4(a: u8, b: u8, c: u8, d: u8, port: u16) -> (addr: SocketAddr)
        ensures
            addr == (SocketAddr::V4 { ip: ipv4_value(a, b, c, d), port }),
    {
        let ip = ((a as u32) << 24u32) | ((b as u32) << 16u32) | ((c as u32) << 8u32) | (d as u32);
        SocketAddr::V4 { ip, port }
    }

    /// The address without its port.
    pub fn ip(&self) -> (ip: IpAddr)
        ensures
            ip == match *self {
                SocketAddr::V4 { ip, .. } => IpAddr::V4(ip),
                SocketAddr::V6 { ip, .. } => IpAddr::V6(ip),
            },
    {
        match *self {
            SocketAddr::V4 { ip, .. } => IpAddr::V4(ip),
            SocketAddr::V6 { ip, .. } => IpAddr::V6(ip),
        }
    }

    pub fn port(&self) -> (port: u16)
        ensures
            port == match *self {
                SocketAddr::V4 { port, .. } => port,
                SocketAddr::V6 { port, .. } => port,
            },
    {
        match *self {
            SocketAddr::V4 { port, .. } => port,
            SocketAddr::V6 { port, .. } => port,
        }
    }
}

/// Equality of socket addresses, field by field.
pub fn socket_addr_eq(a: &SocketAddr, b: &SocketAddr) -> (r: bool)
    ensures
        r == (*a == *b),
{
    match (*a, *b) {
        (SocketAddr::V4 { ip: i1, port: p1 }, SocketAddr::V4 { ip: i2, port: p2 }) => i1 == i2 && p1
            == p2,
        (
            SocketAddr::V6 { ip: i1, port: p1, flowinfo: f1, scope_id: s1 },
            SocketAddr::V6 { ip: i2, port: p2, flowinfo: f2, scope_id: s2 },
        ) => i1 == i2 && p1 == p2 && f1 == f2 && s1 == s2,
        _ => false,
    }
}

/// Equality of IP addresses.
pub fn ip_addr_eq(a: &IpAddr, b: &IpAddr) -> (r: bool)
    ensures
        r == (*a == *b),
{
    match (*a, *b) {
        (IpAddr::V4(x), IpAddr::V4(y)) => x == y,
        (IpAddr::V6(x), IpAddr::V6(y)) => x == y,
        _ => false,
    }
}

impl TableKey for IpAddr {
    fn key_eq(&self, other: &Self) -> (r: bool) {
        ip_addr_eq(self, other)
    }
}

impl TableKey for SocketAddr {
    fn key_eq(&self, other: &Self) -> (r: bool) {
        socket_addr_eq(self, other)
    }
}

} // verus!
