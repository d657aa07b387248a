use vstd::prelude::*;

verus! {

/// Bit mask of the sign bit of an IEEE 754 binary64 encoding.
pub const SIGN_BIT: u64 = 0x8000_0000_0000_0000u64;

/// The encoding of positive infinity, the largest encoding with a clear sign
/// bit that is not a NaN.
pub const POSITIVE_INFINITY_BITS: u64 = 0x7FF0_0000_0000_0000u64;

/// A real number carried by its IEEE 754 binary64 encoding.
///
/// The model only moves such numbers around (and negates them); all
/// arithmetic on them happens where the encoding is turned back into a number.
#[derive(Clone, Copy, Debug)]
pub struct Real {
    pub bits: u64,
}

impl Real {
    /// The encoding of positive zero.
    pub open spec fn spec_zero() -> Real {
        Real { bits: 0 }
    }

    /// The encoding of the negation: the same number with its sign bit flipped.
    pub open spec fn spec_neg(self) -> Real {
        Real { bits: self.bits ^ SIGN_BIT }
    }

    /// Positive zero.
    pub fn zero() -> (r: Real)
        ensures
            r == Real::spec_zero(),
    {
        Real { bits: 0 }
    }

    /// Negation, which flips the sign bit and leaves every other bit alone.
    pub fn neg(self) -> (r: Real)
        ensures
            r == self.spec_neg(),
    {
        Real { bits: self.bits ^ SIGN_BIT }
    }

    /// Whether the number is greater than zero: the sign bit is clear, the
    /// encoding is not that of zero, and it is not a NaN (positive infinity
    /// counts as positive).
    pub open spec fn spec_positive(self) -> bool {
        0 < self.bits <= POSITIVE_INFINITY_BITS
    }

    /// Whether the number is greater than zero.
    pub fn is_positive(self) -> (b: bool)
        ensures
            b == self.spec_positive(),
    {
        0 < self.bits && self.bits <= POSITIVE_INFINITY_BITS
    }

    /// Negating twice gives back the number.
    pub proof fn lemma_neg_neg(self)
        ensures
            self.spec_neg().spec_neg() == self,
    {
        let b = self.bits;
        assert((b ^ 0x8000_0000_0000_0000u64) ^ 0x8000_0000_0000_0000u64 == b) by (bit_vector);
    }
}

} // verus!
