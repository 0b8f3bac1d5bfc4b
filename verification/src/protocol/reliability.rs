//! Frame reliability classes.
use vstd::prelude::*;

verus! {

/// How a frame is delivered: whether it is acknowledged and resent, ordered,
/// sequenced, and whether its sender wants a receipt.
#[derive(Debug, Clone, Copy, PartialEq, Eq, Structural)]
pub enum Reliability {
    Unreliable,
    UnreliableSequenced,
    Reliable,
    ReliableOrdered,
    ReliableSequenced,
    UnreliableWithAckReceipt,
    ReliableWithAckReceipt,
    ReliableOrderedWithAckReceipt,
}

impl Reliability {
    /// The 3-bit code of this class on the wire.
    pub open spec fn spec_code(self) -> u8 {
        match self {
            Reliability::Unreliable => 0,
            Reliability::UnreliableSequenced => 1,
            Reliability::Reliable => 2,
            Reliability::ReliableOrdered => 3,
            Reliability::ReliableSequenced => 4,
            Reliability::UnreliableWithAckReceipt => 5,
            Reliability::ReliableWithAckReceipt => 6,
            Reliability::ReliableOrderedWithAckReceipt => 7,
        }
    }

    /// The class with code `code`, taken modulo 8.
    pub open spec fn spec_from_code(code: u8) -> Reliability {
        let c = code & 7;
        if c == 0 {
            Reliability::Unreliable
        } else if c == 1 {
            Reliability::UnreliableSequenced
        } else if c == 2 {
            Reliability::Reliable
        } else if c == 3 {
            Reliability::ReliableOrdered
        } else if c == 4 {
            Reliability::ReliableSequenced
        } else if c == 5 {
            Reliability::UnreliableWithAckReceipt
        } else if c == 6 {
            Reliability::ReliableWithAckReceipt
        } else {
            Reliability::ReliableOrderedWithAckReceipt
        }
    }

    pub open spec fn spec_is_reliable(self) -> bool {
        matches!(self, Reliability::Reliable | Reliability::ReliableOrdered
            | Reliability::ReliableSequenced | Reliability::ReliableWithAckReceipt
            | Reliability::ReliableOrderedWithAckReceipt)
    }

    pub open spec fn spec_is_sequenced(self) -> bool {
        matches!(self, Reliability::UnreliableSequenced | Reliability::ReliableSequenced)
    }

    pub open spec fn spec_is_ordered(self) -> bool {
        matches!(self, Reliability::ReliableOrdered | Reliability::ReliableOrderedWithAckReceipt)
    }

    /// Whether frames of this class carry an ordering index and channel.
    pub open spec fn spec_has_ordering(self) -> bool {
        self.spec_is_ordered() || self.spec_is_sequenced()
    }

    pub fn code(&self) -> (c: u8)
        ensures
            c == self.spec_code(),
            c < 8,
    {
        match self {
            Reliability::Unreliable => 0,
            Reliability::UnreliableSequenced => 1,
            Reliability::Reliable => 2,
            Reliability::ReliableOrdered => 3,
            Reliability::ReliableSequenced => 4,
            Reliability::UnreliableWithAckReceipt => 5,
            Reliability::ReliableWithAckReceipt => 6,
            Reliability::ReliableOrderedWithAckReceipt => 7,
        }
    }

    pub fn from_code(code: u8) -> (r: Reliability)
        ensures
            r == Reliability::spec_from_code(code),
    {
        let c = code & 7;
        if c == 0 {
            Reliability::Unreliable
        } else if c == 1 {
            Reliability::UnreliableSequenced
        } else if c == 2 {
            Reliability::Reliable
        } else if c == 3 {
            Reliability::ReliableOrdered
        } else if c == 4 {
            Reliability::ReliableSequenced
        } else if c == 5 {
            Reliability::UnreliableWithAckReceipt
        } else if c == 6 {
            Reliability::ReliableWithAckReceipt
        } else {
            Reliability::ReliableOrderedWithAckReceipt
        }
    }

    pub fn is_reliable(&self) -> (b: bool)
        ensures
            b == self.spec_is_reliable(),
    {
        matches!(self, Reliability::Reliable | Reliability::ReliableOrdered
            | Reliability::ReliableSequenced | Reliability::ReliableWithAckReceipt
            | Reliability::ReliableOrderedWithAckReceipt)
    }

    pub fn is_sequenced(&self) -> (b: bool)
        ensures
            b == self.spec_is_sequenced(),
    {
        matches!(self, Reliability::UnreliableSequenced | Reliability::ReliableSequenced)
    }

    pub fn is_ordered(&self) -> (b: bool)
        ensures
            b == self.spec_is_ordered(),
    {
        matches!(self, Reliability::ReliableOrdered | Reliability::ReliableOrderedWithAckReceipt)
    }

    pub fn has_ordering(&self) -> (b: bool)
        ensures
            b == self.spec_has_ordering(),
    {
        self.is_ordered() || self.is_sequenced()
    }

    /// Every class is the class of its own code.
    pub proof fn lemma_code_roundtrip(self)
        ensures
            Reliability::spec_from_code(self.spec_code()) == self,
    {
        let c = self.spec_code();
        assert(c & 7 == c) by (bit_vector)
            requires
                c < 8,
        ;
    }
}

/// RakNet's reliability classes by wire code: codes 2, 3, 4, 6 and 7 are
/// acknowledged and resent; 3 and 7 are ordered; 1 and 4 are sequenced;
/// ordered and sequenced classes carry ordering fields. Every class reads
/// back from its code, and every code is below 8.
pub proof fn lemma_reliability_classes(r: Reliability)
    ensures
        r.spec_code() < 8,
        Reliability::spec_from_code(r.spec_code()) == r,
        r.spec_is_reliable() <==> (r.spec_code() == 2 || r.spec_code() == 3 || r.spec_code() == 4
            || r.spec_code() == 6 || r.spec_code() == 7),
        r.spec_is_ordered() <==> (r.spec_code() == 3 || r.spec_code() == 7),
        r.spec_is_sequenced() <==> (r.spec_code() == 1 || r.spec_code() == 4),
        r.spec_has_ordering() <==> (r.spec_code() == 1 || r.spec_code() == 3 || r.spec_code() == 4
            || r.spec_code() == 7),
{
    let c = r.spec_code();
    assert(c < 8 ==> c & 7 == c) by (bit_vector);
}

} // verus!
