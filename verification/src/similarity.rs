//! Similarity scores and their order.
//!
//! A score is a double-precision number.  The library never does arithmetic
//! on a score: it only asks which of two scores is the larger.  A score is
//! therefore carried as the 64 bits of its IEEE 754 encoding, and the order
//! of the numbers is read off the encodings.

use vstd::prelude::*;

verus! {

/// The sign bit of an encoding.
pub const SIGN_BIT: u64 = 0x8000_0000_0000_0000;

/// The encoding of positive infinity: every larger magnitude is not a number.
pub const INFINITY_BITS: u64 = 0x7ff0_0000_0000_0000;

/// The encoding of negative infinity.
pub const NEG_INFINITY_BITS: u64 = 0xfff0_0000_0000_0000;

/// The encoding of one.
pub const ONE_BITS: u64 = 0x3ff0_0000_0000_0000;

/// The encoding of minus one.
pub const MINUS_ONE_BITS: u64 = 0xbff0_0000_0000_0000;

/// A similarity score, held as the bits of its double-precision encoding.
#[derive(Clone, Copy, Debug)]
pub struct Similarity {
    pub bits: u64,
}

impl Similarity {
    /// The encoding with its sign bit cleared.
    pub open spec fn magnitude(self) -> int {
        if self.bits >= SIGN_BIT {
            self.bits - SIGN_BIT
        } else {
            self.bits as int
        }
    }

    /// Whether the sign bit is set.
    pub open spec fn is_negative(self) -> bool {
        self.bits >= SIGN_BIT
    }

    /// Whether the encoding stands for no number at all.
    pub open spec fn spec_is_nan(self) -> bool {
        self.magnitude() > INFINITY_BITS
    }

    /// Where a number lies on the number line, counted in encodings.  Both
    /// zeros have rank 0; of two numbers the smaller has the smaller rank.
    pub open spec fn rank(self) -> int {
        if self.is_negative() {
            -self.magnitude()
        } else {
            self.magnitude()
        }
    }

    /// The numeric `<`: false as soon as either side is not a number.
    pub open spec fn spec_lt(self, other: Similarity) -> bool {
        !self.spec_is_nan() && !other.spec_is_nan() && self.rank() < other.rank()
    }

    /// The numeric `>`.
    pub open spec fn spec_gt(self, other: Similarity) -> bool {
        other.spec_lt(self)
    }

    /// The larger of two scores, where a side that is not a number yields to
    /// the other and `self` is kept when neither is larger.
    pub open spec fn spec_max(self, other: Similarity) -> Similarity {
        if self.spec_is_nan() {
            other
        } else if other.spec_is_nan() {
            self
        } else if self.spec_lt(other) {
            other
        } else {
            self
        }
    }

    /// The smaller of two scores, where a side that is not a number yields to
    /// the other and `self` is kept when neither is smaller.
    pub open spec fn spec_min(self, other: Similarity) -> Similarity {
        if self.spec_is_nan() {
            other
        } else if other.spec_is_nan() {
            self
        } else if other.spec_lt(self) {
            other
        } else {
            self
        }
    }

    /// Whether two encodings stand for the same number, or both for none.
    /// The two zeros are the same number.
    pub open spec fn same_number(self, other: Similarity) -> bool {
        if self.spec_is_nan() {
            other.spec_is_nan()
        } else {
            !other.spec_is_nan() && self.rank() == other.rank()
        }
    }

    /// Whether the score is a number between minus one and one, both included.
    pub open spec fn in_unit_range(self) -> bool {
        !self.spec_is_nan() && -(ONE_BITS as int) <= self.rank() <= ONE_BITS as int
    }

    /// The score with the given encoding.
    pub fn from_bits(bits: u64) -> (s: Similarity)
        ensures
            s.bits == bits,
    {
        Similarity { bits }
    }

    /// The encoding of the score.
    pub fn to_bits(self) -> (bits: u64)
        ensures
            bits == self.bits,
    {
        self.bits
    }

    /// The encoding with its sign bit cleared.
    fn magnitude_bits(self) -> (m: u64)
        ensures
            m == self.magnitude(),
            m < SIGN_BIT,
    {
        if self.bits >= SIGN_BIT {
            self.bits - SIGN_BIT
        } else {
            self.bits
        }
    }

    /// Whether the score is not a number.
    #[verifier::when_used_as_spec(spec_is_nan)]
    pub fn is_nan(self) -> (r: bool)
        ensures
            r == self.spec_is_nan(),
    {
        self.magnitude_bits() > INFINITY_BITS
    }

    /// Whether `self` is numerically smaller than `other`.
    #[verifier::when_used_as_spec(spec_lt)]
    pub fn lt(self, other: Similarity) -> (r: bool)
        ensures
            r == self.spec_lt(other),
    {
        if self.is_nan() || other.is_nan() {
            return false;
        }
        let a: u64 = self.magnitude_bits();
        let b: u64 = other.magnitude_bits();
        if self.bits >= SIGN_BIT {
            if other.bits >= SIGN_BIT {
                b < a
            } else {
                a > 0 || b > 0
            }
        } else {
            other.bits < SIGN_BIT && a < b
        }
    }

    /// Whether `self` is numerically larger than `other`.
    #[verifier::when_used_as_spec(spec_gt)]
    pub fn gt(self, other: Similarity) -> (r: bool)
        ensures
            r == self.spec_gt(other),
    {
        other.lt(self)
    }

    /// The larger of the two scores; see [`Similarity::spec_max`].
    #[verifier::when_used_as_spec(spec_max)]
    pub fn max(self, other: Similarity) -> (m: Similarity)
        ensures
            m == self.spec_max(other),
    {
        if self.is_nan() {
            other
        } else if other.is_nan() {
            self
        } else if self.lt(other) {
            other
        } else {
            self
        }
    }

    /// The smaller of the two scores; see [`Similarity::spec_min`].
    #[verifier::when_used_as_spec(spec_min)]
    pub fn min(self, other: Similarity) -> (m: Similarity)
        ensures
            m == self.spec_min(other),
    {
        if self.is_nan() {
            other
        } else if other.is_nan() {
            self
        } else if other.lt(self) {
            other
        } else {
            self
        }
    }
}

} // verus!
