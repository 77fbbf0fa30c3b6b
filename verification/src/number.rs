//! Numbers of the language: IEEE 754 doubles, held by their bit pattern.
//!
//! Classification, sign, equality and ordering are exact operations on the
//! encoding and are carried out here on integers.  Operations that round
//! (arithmetic, decimal conversion) are supplied by the caller.

use vstd::prelude::*;
use vstd::string::*;
use crate::text::has_char;

verus! {

/// Bit 63 of the encoding: the sign.
pub const SIGN_BIT: u64 = 0x8000_0000_0000_0000u64;

/// The encoding of positive infinity; every larger magnitude is a NaN.
pub const INFINITY_BITS: u64 = 0x7FF0_0000_0000_0000u64;

/// The arithmetic operations that round, which the host carries out.
#[derive(Clone, Copy, Debug, PartialEq, Eq, Structural)]
pub enum ArithOp {
    Add,
    Sub,
    Mul,
    Div,
}

/// A double-precision number, represented by its 64-bit encoding.
#[derive(Clone, Copy, Debug)]
pub struct Number {
    pub bits: u64,
}

impl Number {
    /// The encoding with the sign bit cleared.
    pub open spec fn magnitude(self) -> int {
        if self.bits >= SIGN_BIT {
            self.bits - SIGN_BIT
        } else {
            self.bits as int
        }
    }

    /// Whether the sign bit is set.
    pub open spec fn is_negative(self) -> bool {
        self.bits >= SIGN_BIT
    }

    /// Not-a-number: exponent all ones and a non-zero fraction.
    pub open spec fn is_nan(self) -> bool {
        self.magnitude() > INFINITY_BITS
    }

    /// Position of a non-NaN number on the real line extended by the two
    /// infinities.  Both zeros have rank 0; the encoding is monotonic in the
    /// magnitude, so ranks order numbers as their values do.
    pub open spec fn rank(self) -> int {
        if self.is_negative() {
            -self.magnitude()
        } else {
            self.magnitude()
        }
    }

    /// IEEE equality: no NaN equals anything, the two zeros are equal.
    pub open spec fn ieee_eq(self, other: Number) -> bool {
        !self.is_nan() && !other.is_nan() && self.rank() == other.rank()
    }

    /// IEEE `<`: false as soon as one side is a NaN.
    pub open spec fn ieee_lt(self, other: Number) -> bool {
        !self.is_nan() && !other.is_nan() && self.rank() < other.rank()
    }

    /// IEEE `<=`: false as soon as one side is a NaN.
    pub open spec fn ieee_le(self, other: Number) -> bool {
        !self.is_nan() && !other.is_nan() && self.rank() <= other.rank()
    }

    /// The number with the opposite sign.
    pub open spec fn negation(self) -> Number {
        if self.bits >= SIGN_BIT {
            Number { bits: (self.bits - SIGN_BIT) as u64 }
        } else {
            Number { bits: (self.bits + SIGN_BIT) as u64 }
        }
    }

    /// The number with the given encoding.
    pub fn from_bits(bits: u64) -> (n: Number)
        ensures
            n.bits == bits,
    {
        Number { bits }
    }

    /// The encoding of the number.
    pub fn to_bits(self) -> (bits: u64)
        ensures
            bits == self.bits,
    {
        self.bits
    }

    fn abs_bits(self) -> (m: u64)
        ensures
            m == self.magnitude(),
    {
        if self.bits >= SIGN_BIT {
            self.bits - SIGN_BIT
        } else {
            self.bits
        }
    }

    /// Whether the number is a NaN.
    pub fn nan(self) -> (r: bool)
        ensures
            r == self.is_nan(),
    {
        self.abs_bits() > INFINITY_BITS
    }

    /// Compares ranks: `-1`, `0` or `1` as `self` lies below, at or above `other`.
    fn rank_order(self, other: Number) -> (r: i8)
        ensures
            r == -1 <==> self.rank() < other.rank(),
            r == 0 <==> self.rank() == other.rank(),
            r == 1 <==> self.rank() > other.rank(),
    {
        let a: u64 = self.abs_bits();
        let b: u64 = other.abs_bits();
        let a_neg: bool = self.bits >= SIGN_BIT && a > 0;
        let b_neg: bool = other.bits >= SIGN_BIT && b > 0;
        if a_neg && !b_neg {
            -1
        } else if !a_neg && b_neg {
            1
        } else if a == b {
            0
        } else if (a < b) == a_neg {
            1
        } else {
            -1
        }
    }

    /// IEEE `==`.
    pub fn equals(self, other: Number) -> (r: bool)
        ensures
            r == self.ieee_eq(other),
    {
        !self.nan() && !other.nan() && self.rank_order(other) == 0
    }

    /// IEEE `<`.
    pub fn less(self, other: Number) -> (r: bool)
        ensures
            r == self.ieee_lt(other),
    {
        !self.nan() && !other.nan() && self.rank_order(other) == -1
    }

    /// IEEE `<=`.
    pub fn less_equal(self, other: Number) -> (r: bool)
        ensures
            r == self.ieee_le(other),
    {
        !self.nan() && !other.nan() && self.rank_order(other) != 1
    }

    /// IEEE `>`.
    pub fn greater(self, other: Number) -> (r: bool)
        ensures
            r == other.ieee_lt(self),
    {
        other.less(self)
    }

    /// IEEE `>=`.
    pub fn greater_equal(self, other: Number) -> (r: bool)
        ensures
            r == other.ieee_le(self),
    {
        other.less_equal(self)
    }

    /// The number with the opposite sign.
    pub fn negated(self) -> (r: Number)
        ensures
            r == self.negation(),
    {
        if self.bits >= SIGN_BIT {
            Number { bits: self.bits - SIGN_BIT }
        } else {
            Number { bits: self.bits + SIGN_BIT }
        }
    }
}

/// A decimal rendering made to show a fraction part: text without a `.`
/// gets `.0` appended.
pub open spec fn with_fraction(shown: Seq<char>) -> Seq<char> {
    if shown.contains('.') {
        shown
    } else {
        shown + ".0"@
    }
}

/// Gives the host's decimal rendering of a number a fraction part if it has none.
pub fn decimal_text(shown: String) -> (text: String)
    ensures
        text@ == with_fraction(shown@),
{
    if has_char(shown.as_str(), '.') {
        shown
    } else {
        shown.concat(".0")
    }
}

/// Negation only flips the sign: it is an involution, keeps the magnitude
/// and keeps NaNs NaN.
pub proof fn lemma_negation(n: Number)
    ensures
        n.negation().negation() == n,
        n.negation().magnitude() == n.magnitude(),
        n.negation().is_negative() != n.is_negative(),
        n.negation().is_nan() == n.is_nan(),
{
}

/// IEEE equality is reflexive exactly on the numbers that are not NaN, and symmetric.
pub proof fn lemma_ieee_eq(a: Number, b: Number)
    ensures
        a.ieee_eq(a) == !a.is_nan(),
        a.ieee_eq(b) == b.ieee_eq(a),
{
}

} // verus!
