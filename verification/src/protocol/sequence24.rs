//! 24-bit sequence numbers.
use vstd::prelude::*;

verus! {

/// A 24-bit sequence number, as RakNet numbers datagrams and reliable frames.
#[derive(Debug, Clone, Copy, PartialEq, Eq, Structural)]
pub struct Sequence24(u32);

pub open spec fn sequence_modulus() -> u32 {
    0x1000000
}

impl Sequence24 {
    /// The number this sequence holds; always below 2^24.
    pub closed spec fn spec_value(self) -> u32 {
        self.0
    }

    #[verifier::type_invariant]
    closed spec fn below_modulus(self) -> bool {
        self.0 < 0x1000000
    }

    /// The sequence number `value` reduced to 24 bits.
    pub closed spec fn spec_new(value: u32) -> Sequence24 {
        Sequence24(value & 0xFF_FFFF)
    }

    /// Whether this value could have been made by the constructors: its number is below 2^24.
    pub open spec fn valid(self) -> bool {
        self.spec_value() < sequence_modulus()
    }

    pub proof fn lemma_spec_new(value: u32)
        ensures
            Sequence24::spec_new(value).spec_value() == value & 0xFF_FFFF,
            Sequence24::spec_new(value).valid(),
            value < sequence_modulus() ==> Sequence24::spec_new(value).spec_value() == value,
    {
        assert(value & 0xFF_FFFFu32 < 0x1000000u32) by (bit_vector);
        assert(value < 0x1000000u32 ==> value & 0xFF_FFFFu32 == value) by (bit_vector);
    }

    /// A valid sequence number is the one made from its own number.
    pub proof fn lemma_spec_new_of_value(s: Sequence24)
        requires
            s.valid(),
        ensures
            Sequence24::spec_new(s.spec_value()) == s,
    {
        let v = s.0;
        assert(v < 0x1000000u32 ==> v & 0xFF_FFFFu32 == v) by (bit_vector);
    }

    pub fn new(value: u32) -> (s: Sequence24)
        ensures
            s == Sequence24::spec_new(value),
            s.spec_value() == value & 0xFF_FFFF,
            s.spec_value() < sequence_modulus(),
    {
        assert(value & 0xFF_FFFFu32 < 0x1000000u32) by (bit_vector);
        Sequence24(value & 0xFF_FFFF)
    }

    pub fn value(&self) -> (v: u32)
        ensures
            v == self.spec_value(),
            v < sequence_modulus(),
    {
        proof {
            use_type_invariant(self);
        }
        self.0
    }

    /// Two sequence numbers holding the same number are the same.
    pub proof fn lemma_ext(a: Sequence24, b: Sequence24)
        requires
            a.spec_value() == b.spec_value(),
        ensures
            a == b,
    {
    }

    /// The sequence number that follows this one, wrapping to zero after 2^24 - 1.
    pub fn next(&self) -> (s: Sequence24)
        ensures
            s.spec_value() == (self.spec_value() + 1) % (sequence_modulus() as int),
    {
        proof {
            use_type_invariant(self);
        }
        if self.0 == 0xFF_FFFF {
            Sequence24(0)
        } else {
            Sequence24(self.0 + 1)
        }
    }
}

pub fn sequence_eq(a: &Sequence24, b: &Sequence24) -> (r: bool)
    ensures
        r == (*a == *b),
{
    a.value() == b.value()
}

} // verus!
