//! Binary floating-point values, held and inspected by their bit pattern.

use vstd::prelude::*;

verus! {

/// The weight of the sign bit in a 64-bit pattern.
pub const SIGN_BIT: u64 = 0x8000_0000_0000_0000;

/// The pattern of positive infinity: every exponent bit set, no fraction bit.
pub const INFINITY_BITS: u64 = 0x7FF0_0000_0000_0000;

/// The pattern of the number 1.
pub const ONE_BITS: u64 = 0x3FF0_0000_0000_0000;

/// The pattern of 0.00001, the number nearest to it: at or below it a
/// number is written with an exponent unless a query says otherwise.
pub const SMALL_BITS: u64 = 0x3EE4_F8B5_88E3_68F1;

/// The pattern of 10000000000: at or above it a number is written with an
/// exponent unless a query says otherwise.
pub const LARGE_BITS: u64 = 0x4202_A05F_2000_0000;

/// A 64-bit binary floating-point value (sign, 11 exponent bits, 52
/// fraction bits), held by its bit pattern.
#[derive(Clone, Copy, Debug, PartialEq, Eq, Structural)]
pub struct Binary64 {
    pub bits: u64,
}

impl Binary64 {
    /// The pattern without its sign bit.
    pub open spec fn magnitude(self) -> u64 {
        (self.bits % SIGN_BIT) as u64
    }

    /// Whether the sign bit is set.
    pub open spec fn sign_set(self) -> bool {
        self.bits >= SIGN_BIT
    }

    /// Not a number: exponent bits all set and a fraction that is not zero.
    pub open spec fn nan(self) -> bool {
        self.magnitude() > INFINITY_BITS
    }

    /// Positive or negative infinity.
    pub open spec fn infinite(self) -> bool {
        self.magnitude() == INFINITY_BITS
    }

    /// Positive or negative zero.
    pub open spec fn zero(self) -> bool {
        self.magnitude() == 0
    }

    /// Where the value stands among the values that are numbers: the order
    /// of ranks is the numeric order, and both zeros have rank 0.
    pub open spec fn rank(self) -> int {
        if self.sign_set() {
            -(self.magnitude() as int)
        } else {
            self.magnitude() as int
        }
    }

    /// Numerically below `other`; false when either is not a number.
    pub open spec fn below(self, other: Binary64) -> bool {
        !self.nan() && !other.nan() && self.rank() < other.rank()
    }

    /// Numerically equal to `other`; false when either is not a number.
    pub open spec fn same(self, other: Binary64) -> bool {
        !self.nan() && !other.nan() && self.rank() == other.rank()
    }

    /// Numerically at most `other`; false when either is not a number.
    pub open spec fn at_most(self, other: Binary64) -> bool {
        !self.nan() && !other.nan() && self.rank() <= other.rank()
    }

    /// Numerically below zero.
    pub open spec fn negative(self) -> bool {
        !self.nan() && self.rank() < 0
    }

    /// The value with its sign bit cleared.
    pub open spec fn absolute(self) -> Binary64 {
        Binary64 { bits: self.magnitude() }
    }

    /// The value with its sign bit flipped.
    pub open spec fn negated(self) -> Binary64 {
        if self.sign_set() {
            Binary64 { bits: (self.bits - SIGN_BIT) as u64 }
        } else {
            Binary64 { bits: (self.bits + SIGN_BIT) as u64 }
        }
    }

    /// The value with the pattern `bits`.
    pub fn from_bits(bits: u64) -> (r: Binary64)
        ensures
            r.bits == bits,
    {
        Binary64 { bits }
    }

    /// The pattern of the value.
    pub fn to_bits(&self) -> (r: u64)
        ensures
            r == self.bits,
    {
        self.bits
    }

    /// Whether the value is not a number.
    pub fn is_nan(&self) -> (r: bool)
        ensures
            r == self.nan(),
    {
        self.bits % SIGN_BIT > INFINITY_BITS
    }

    /// Whether the value is positive or negative infinity.
    pub fn is_infinite(&self) -> (r: bool)
        ensures
            r == self.infinite(),
    {
        self.bits % SIGN_BIT == INFINITY_BITS
    }

    /// Whether the value is positive or negative zero.
    pub fn is_zero(&self) -> (r: bool)
        ensures
            r == self.zero(),
    {
        self.bits % SIGN_BIT == 0
    }

    /// Whether the value is numerically below zero.
    pub fn is_negative(&self) -> (r: bool)
        ensures
            r == self.negative(),
    {
        let magnitude: u64 = self.bits % SIGN_BIT;
        self.bits >= SIGN_BIT && magnitude != 0 && magnitude <= INFINITY_BITS
    }

    /// Whether the value is numerically below `other`.
    pub fn less_than(&self, other: &Binary64) -> (r: bool)
        ensures
            r == self.below(*other),
    {
        if self.is_nan() || other.is_nan() {
            return false;
        }
        let a: u64 = self.bits % SIGN_BIT;
        let b: u64 = other.bits % SIGN_BIT;
        if self.bits >= SIGN_BIT {
            if other.bits >= SIGN_BIT {
                b < a
            } else {
                a != 0 || b != 0
            }
        } else {
            if other.bits >= SIGN_BIT {
                false
            } else {
                a < b
            }
        }
    }

    /// Whether the value is numerically at most `other`.
    pub fn less_or_equal(&self, other: &Binary64) -> (r: bool)
        ensures
            r == self.at_most(*other),
    {
        self.less_than(other) || self.equals(other)
    }

    /// Whether the value is numerically equal to `other`; `==` tells whether
    /// two values have the same pattern.
    pub fn equals(&self, other: &Binary64) -> (r: bool)
        ensures
            r == self.same(*other),
    {
        if self.is_nan() || other.is_nan() {
            return false;
        }
        let a: u64 = self.bits % SIGN_BIT;
        let b: u64 = other.bits % SIGN_BIT;
        if a == 0 && b == 0 {
            true
        } else {
            self.bits == other.bits
        }
    }

    /// The value with its sign bit cleared.
    pub fn abs(&self) -> (r: Binary64)
        ensures
            r == self.absolute(),
    {
        Binary64 { bits: self.bits % SIGN_BIT }
    }

    /// The value with its sign bit flipped.
    pub fn neg(&self) -> (r: Binary64)
        ensures
            r == self.negated(),
    {
        if self.bits >= SIGN_BIT {
            Binary64 { bits: self.bits - SIGN_BIT }
        } else {
            Binary64 { bits: self.bits + SIGN_BIT }
        }
    }
}

} // verus!
