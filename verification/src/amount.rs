//! Token amounts as IEEE-754 binary64 bit patterns.

use vstd::prelude::*;

verus! {

/// The sign bit of a binary64 value.
pub const SIGN_BIT: u64 = 0x8000_0000_0000_0000;

/// Every bit of a binary64 value but the sign.
pub const MAGNITUDE_BITS: u64 = 0x7fff_ffff_ffff_ffff;

/// A UI-scaled token amount: a binary64 value, held as the 64 bits that
/// represent it.
#[derive(Clone, Copy, Debug, PartialEq, Eq, Structural)]
pub struct Amount {
    pub bits: u64,
}

impl Amount {
    /// The amount with its sign bit cleared.
    pub open spec fn magnitude(self) -> Amount {
        Amount { bits: self.bits & MAGNITUDE_BITS }
    }

    /// Whether the amount is positive or negative zero.
    pub open spec fn is_zero_value(self) -> bool {
        self.bits & MAGNITUDE_BITS == 0
    }

    /// The amount that the given bits represent.
    pub fn from_bits(bits: u64) -> (r: Amount)
        ensures
            r.bits == bits,
    {
        Amount { bits }
    }

    /// The bits that represent the amount.
    pub fn to_bits(self) -> (bits: u64)
        ensures
            bits == self.bits,
    {
        self.bits
    }

    /// The absolute value: the same bits with the sign cleared.
    pub fn abs(self) -> (r: Amount)
        ensures
            r == self.magnitude(),
    {
        Amount { bits: self.bits & MAGNITUDE_BITS }
    }

    /// Whether the amount is zero of either sign.
    pub fn is_zero(self) -> (r: bool)
        ensures
            r == self.is_zero_value(),
    {
        self.bits & MAGNITUDE_BITS == 0
    }
}

/// Taking the magnitude twice changes nothing: a magnitude has no sign, and
/// is zero exactly when the amount is.
pub proof fn lemma_magnitude_idempotent(a: Amount)
    ensures
        a.magnitude().magnitude() == a.magnitude(),
        a.magnitude().is_zero_value() == a.is_zero_value(),
        a.magnitude().bits & SIGN_BIT == 0,
{
    let b = a.bits;
    assert((b & 0x7fff_ffff_ffff_ffffu64) & 0x7fff_ffff_ffff_ffffu64 == b & 0x7fff_ffff_ffff_ffffu64)
        by (bit_vector);
    assert((b & 0x7fff_ffff_ffff_ffffu64) & 0x8000_0000_0000_0000u64 == 0) by (bit_vector);
}

} // verus!
