//! Packet identifiers, sizes and limits of the RakNet wire protocol.
use vstd::prelude::*;

use super::primitives::Magic;

verus! {

pub const ID_UNCONNECTED_PING: u8 = 0x01;
pub const ID_UNCONNECTED_PING_OPEN_CONNECTIONS: u8 = 0x02;
pub const ID_OPEN_CONNECTION_REQUEST_1: u8 = 0x05;
pub const ID_OPEN_CONNECTION_REPLY_1: u8 = 0x06;
pub const ID_OPEN_CONNECTION_REQUEST_2: u8 = 0x07;
pub const ID_OPEN_CONNECTION_REPLY_2: u8 = 0x08;
pub const ID_CONNECTION_REQUEST_FAILED: u8 = 0x11;
pub const ID_ALREADY_CONNECTED: u8 = 0x12;
pub const ID_NO_FREE_INCOMING_CONNECTIONS: u8 = 0x14;
pub const ID_CONNECTION_BANNED: u8 = 0x17;
pub const ID_INCOMPATIBLE_PROTOCOL_VERSION: u8 = 0x19;
pub const ID_IP_RECENTLY_CONNECTED: u8 = 0x1a;
pub const ID_UNCONNECTED_PONG: u8 = 0x1c;

/// The smallest MTU a connection may negotiate.
pub const MINIMUM_MTU_SIZE: u16 = 576;
/// The largest MTU a connection may negotiate.
pub const MAXIMUM_MTU_SIZE: u16 = 1492;

/// Bytes in the header of a data datagram: flags and a 24-bit sequence number.
pub const RAKNET_DATAGRAM_HEADER_SIZE: usize = 4;

/// The largest number of sequence numbers tracked for acknowledgement.
pub const MAX_ACK_SEQUENCES: u32 = 8192;
/// How long, in milliseconds, an incomplete split compound is kept.
pub const SPLIT_REASSEMBLY_TTL_MS: u64 = 30_000;
/// The largest number of parts a split compound may announce.
pub const MAX_SPLIT_PARTS: u32 = 8192;
/// How many split compounds may be reassembled at once per peer.
pub const MAX_INFLIGHT_SPLIT_COMPOUNDS_PER_PEER: usize = 16;

/// The magic that offline packets carry unless configured otherwise.
pub const DEFAULT_UNCONNECTED_MAGIC: Magic = [
    0x00, 0xff, 0xff, 0x00, 0xfe, 0xfe, 0xfe, 0xfe, 0xfd, 0xfd, 0xfd, 0xfd, 0x12, 0x34, 0x56, 0x78,
];

/// The flag byte at the front of a datagram. Only the six defined bits
/// (valid, ACK, NACK, packet pair, continuous send, needs B and AS) are kept.
#[derive(Debug, Clone, Copy, PartialEq, Eq, Structural)]
pub struct DatagramFlags(u8);

impl DatagramFlags {
    pub closed spec fn spec_bits(self) -> u8 {
        self.0
    }

    #[verifier::type_invariant]
    closed spec fn only_defined_bits(self) -> bool {
        self.0 & 0x03 == 0
    }

    pub closed spec fn spec_from_bits_truncate(raw: u8) -> DatagramFlags {
        DatagramFlags(raw & 0xFC)
    }

    /// Whether this value could have been made by the constructors.
    pub open spec fn valid(self) -> bool {
        self.spec_bits() & 0x03 == 0
    }

    pub proof fn lemma_from_bits_truncate(raw: u8)
        ensures
            DatagramFlags::spec_from_bits_truncate(raw).spec_bits() == raw & 0xFC,
            DatagramFlags::spec_from_bits_truncate(raw).valid(),
    {
        assert((raw & 0xFCu8) & 0x03u8 == 0) by (bit_vector);
    }

    /// A valid flag value is the one made from its own bits.
    pub proof fn lemma_from_own_bits(f: DatagramFlags)
        requires
            f.valid(),
        ensures
            DatagramFlags::spec_from_bits_truncate(f.spec_bits()) == f,
    {
        let b = f.0;
        assert(b & 0x03u8 == 0 ==> b & 0xFCu8 == b) by (bit_vector);
    }

    /// The flags in `raw`, dropping the bits that no flag is defined for.
    pub fn from_bits_truncate(raw: u8) -> (f: DatagramFlags)
        ensures
            f == DatagramFlags::spec_from_bits_truncate(raw),
            f.spec_bits() == raw & 0xFC,
    {
        assert((raw & 0xFCu8) & 0x03u8 == 0) by (bit_vector);
        DatagramFlags(raw & 0xFC)
    }

    pub fn bits(&self) -> (b: u8)
        ensures
            b == self.spec_bits(),
            b & 0x03 == 0,
    {
        proof {
            use_type_invariant(self);
        }
        self.0
    }
}

} // verus!
