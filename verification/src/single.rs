//! Single-precision numbers as bit patterns, and the operations on them that never round:
//! comparison, selection and negation.
use vstd::prelude::*;

verus! {

/// The sign bit of a single-precision number; the bits below it are the magnitude.
pub const SIGN_BIT: u32 = 0x8000_0000;

/// The magnitude of an infinity. A larger magnitude is not a number.
pub const INFINITY: u32 = 0x7f80_0000;

/// The bit pattern of `0.0`.
pub const ZERO: u32 = 0;

/// The bit pattern of `1.0`.
pub const ONE: u32 = 0x3f80_0000;

/// The bit pattern of `-1.0`.
pub const MINUS_ONE: u32 = 0xbf80_0000;

/// An IEEE 754 binary32 number, held as its bit pattern.
///
/// The derived `==` compares bit patterns; [`Single::same`] is the comparison of the numbers.
#[derive(Clone, Copy, Debug, PartialEq, Eq, Structural)]
pub struct Single {
    pub bits: u32,
}

impl Single {
    /// The bits below the sign.
    pub open spec fn magnitude(self) -> int {
        if self.bits < SIGN_BIT {
            self.bits as int
        } else {
            self.bits - SIGN_BIT
        }
    }

    /// Neither a finite number nor an infinity.
    pub open spec fn nan(self) -> bool {
        self.magnitude() > INFINITY
    }

    /// Neither an infinity nor NaN.
    pub open spec fn finite(self) -> bool {
        self.magnitude() < INFINITY
    }

    /// The place of a number on the line: numbers compare as their ranks do, and both zeros
    /// have rank 0.
    pub open spec fn rank(self) -> int {
        if self.bits < SIGN_BIT {
            self.magnitude()
        } else {
            -self.magnitude()
        }
    }

    /// `self < other`; false where either is NaN.
    pub open spec fn less(self, other: Single) -> bool {
        !self.nan() && !other.nan() && self.rank() < other.rank()
    }

    /// `self == other`; false where either is NaN.
    pub open spec fn equal(self, other: Single) -> bool {
        !self.nan() && !other.nan() && self.rank() == other.rank()
    }

    /// `self <= other`; false where either is NaN.
    pub open spec fn at_most(self, other: Single) -> bool {
        !self.nan() && !other.nan() && self.rank() <= other.rank()
    }

    /// `-self`: the same magnitude under the other sign.
    pub open spec fn negative(self) -> Single {
        if self.bits < SIGN_BIT {
            Single { bits: (self.bits + SIGN_BIT) as u32 }
        } else {
            Single { bits: (self.bits - SIGN_BIT) as u32 }
        }
    }

    /// The larger of two numbers; the other one where one is NaN.
    pub open spec fn larger(self, other: Single) -> Single {
        if self.nan() || self.less(other) {
            other
        } else {
            self
        }
    }

    /// The smaller of two numbers; the other one where one is NaN.
    pub open spec fn smaller(self, other: Single) -> Single {
        if self.nan() || other.less(self) {
            other
        } else {
            self
        }
    }

    /// `self` moved into `low ..= high`; NaN stays NaN.
    pub open spec fn clamped(self, low: Single, high: Single) -> Single {
        if self.less(low) {
            low
        } else if high.less(self) {
            high
        } else {
            self
        }
    }

    /// Whether this is not a number.
    pub fn is_nan(self) -> (r: bool)
        ensures
            r == self.nan(),
    {
        if self.bits < SIGN_BIT {
            self.bits > INFINITY
        } else {
            self.bits - SIGN_BIT > INFINITY
        }
    }

    /// Whether this is neither an infinity nor NaN.
    pub fn is_finite(self) -> (r: bool)
        ensures
            r == self.finite(),
    {
        if self.bits < SIGN_BIT {
            self.bits < INFINITY
        } else {
            self.bits - SIGN_BIT < INFINITY
        }
    }

    /// Whether `self < other`.
    pub fn lt(self, other: Single) -> (r: bool)
        ensures
            r == self.less(other),
    {
        if self.is_nan() || other.is_nan() {
            false
        } else if self.bits < SIGN_BIT {
            other.bits < SIGN_BIT && self.bits < other.bits
        } else if other.bits < SIGN_BIT {
            self.bits != SIGN_BIT || other.bits != ZERO
        } else {
            other.bits < self.bits
        }
    }

    /// Whether `self == other` as numbers.
    pub fn same(self, other: Single) -> (r: bool)
        ensures
            r == self.equal(other),
    {
        !self.is_nan() && !other.is_nan() && !self.lt(other) && !other.lt(self)
    }

    /// `-self`.
    pub fn neg(self) -> (r: Single)
        ensures
            r == self.negative(),
    {
        if self.bits < SIGN_BIT {
            Single { bits: self.bits + SIGN_BIT }
        } else {
            Single { bits: self.bits - SIGN_BIT }
        }
    }

    /// The larger of two numbers.
    pub fn max(self, other: Single) -> (r: Single)
        ensures
            r == self.larger(other),
    {
        if self.is_nan() || self.lt(other) {
            other
        } else {
            self
        }
    }

    /// The smaller of two numbers.
    pub fn min(self, other: Single) -> (r: Single)
        ensures
            r == self.smaller(other),
    {
        if self.is_nan() || other.lt(self) {
            other
        } else {
            self
        }
    }

    /// `self` moved into `low ..= high`. The bounds are numbers, the lower one first.
    pub fn clamp(self, low: Single, high: Single) -> (r: Single)
        requires
            low.at_most(high),
        ensures
            r == self.clamped(low, high),
    {
        if self.lt(low) {
            low
        } else if high.lt(self) {
            high
        } else {
            self
        }
    }
}

/// `0.0`.
pub open spec fn zero() -> Single {
    Single { bits: ZERO }
}

/// `1.0`.
pub open spec fn one() -> Single {
    Single { bits: ONE }
}

/// A clamped number lies between its bounds.
pub proof fn clamped_in_range(x: Single, low: Single, high: Single)
    requires
        low.at_most(high),
        !x.nan(),
    ensures
        low.at_most(x.clamped(low, high)),
        x.clamped(low, high).at_most(high),
{
}

/// Clamping twice is clamping once.
pub proof fn clamped_twice(x: Single, low: Single, high: Single)
    requires
        low.at_most(high),
    ensures
        x.clamped(low, high).clamped(low, high) == x.clamped(low, high),
{
}

/// Negating twice gives the number back.
pub proof fn negative_twice(x: Single)
    ensures
        x.negative().negative() == x,
        x.negative().rank() == -x.rank(),
        x.negative().nan() == x.nan(),
{
}

/// Numbers that are not NaN are totally ordered: exactly one of `<`, `==`, `>` holds, and
/// `<` carries over.
pub proof fn numbers_ordered(x: Single, y: Single, z: Single)
    requires
        !x.nan(),
        !y.nan(),
        !z.nan(),
    ensures
        x.less(y) || x.equal(y) || y.less(x),
        !(x.less(y) && y.less(x)),
        !(x.less(y) && x.equal(y)),
        x.less(y) && y.less(z) ==> x.less(z),
        x.equal(y) && y.equal(z) ==> x.equal(z),
{
}

/// Neither argument is above their larger one or below their smaller one.
pub proof fn larger_and_smaller_bound(x: Single, y: Single)
    requires
        !x.nan(),
        !y.nan(),
    ensures
        x.at_most(x.larger(y)),
        y.at_most(x.larger(y)),
        x.smaller(y).at_most(x),
        x.smaller(y).at_most(y),
{
}

/// Numbers compare as their bit patterns do: nonnegative ones in the order of their bits, negative
/// ones in the opposite order, every negative one below every nonnegative one but that the two
/// zeros are equal. Nothing compares with NaN.
pub proof fn numbers_compare_as_bits(x: Single, y: Single)
    ensures
        x.bits <= 0x7f80_0000 && y.bits <= 0x7f80_0000 ==> (x.less(y) <==> x.bits < y.bits) && (
        x.equal(y) <==> x.bits == y.bits) && (x.at_most(y) <==> x.bits <= y.bits),
        0x8000_0000 <= x.bits <= 0xff80_0000 && 0x8000_0000 <= y.bits <= 0xff80_0000 ==> (x.less(y)
            <==> y.bits < x.bits) && (x.equal(y) <==> x.bits == y.bits) && (x.at_most(y)
            <==> y.bits <= x.bits),
        0x8000_0000 < x.bits <= 0xff80_0000 && y.bits <= 0x7f80_0000 ==> x.less(y) && x.at_most(y)
            && !y.less(x) && !y.at_most(x) && !x.equal(y) && !y.equal(x),
        x.bits == 0x8000_0000 && 0 < y.bits <= 0x7f80_0000 ==> x.less(y) && x.at_most(y) && !y.less(
            x,
        ) && !y.at_most(x) && !x.equal(y) && !y.equal(x),
        x.bits == 0x8000_0000 && y.bits == 0 ==> x.equal(y) && y.equal(x) && !x.less(y) && !y.less(
            x,
        ) && x.at_most(y) && y.at_most(x),
        0x7f80_0000 < x.bits < 0x8000_0000 || 0xff80_0000 < x.bits ==> !x.less(y) && !y.less(x)
            && !x.equal(y) && !y.equal(x) && !x.at_most(y) && !y.at_most(x),
{
}

/// What is NaN and what is finite shows in the bits: an infinity is neither.
pub proof fn classes_show_in_bits(x: Single)
    ensures
        x.nan() <==> 0x7f80_0000 < x.bits < 0x8000_0000 || 0xff80_0000 < x.bits,
        x.finite() <==> x.bits < 0x7f80_0000 || 0x8000_0000 <= x.bits < 0xff80_0000,
        x.bits == 0x7f80_0000 || x.bits == 0xff80_0000 <==> !x.nan() && !x.finite(),
{
}

/// Negating turns the sign bit over and leaves the others, and turns comparisons round.
pub proof fn negative_turns_the_sign(x: Single, y: Single)
    ensures
        x.bits < 0x8000_0000 ==> x.negative().bits == x.bits + 0x8000_0000,
        x.bits >= 0x8000_0000 ==> x.negative().bits == x.bits - 0x8000_0000,
        x.less(y) <==> y.negative().less(x.negative()),
{
}

/// The larger of two numbers is one of them and not below the other; the smaller is one of them
/// and not above the other. Of equal numbers it is the first, and NaN gives way to the other.
pub proof fn larger_and_smaller_choose(x: Single, y: Single)
    ensures
        x.less(y) ==> x.larger(y) == y && x.smaller(y) == x,
        y.less(x) ==> x.larger(y) == x && x.smaller(y) == y,
        x.equal(y) ==> x.larger(y) == x && x.smaller(y) == x,
        x.nan() ==> x.larger(y) == y && x.smaller(y) == y,
        y.nan() && !x.nan() ==> x.larger(y) == x && x.smaller(y) == x,
{
}

/// Clamping leaves alone what lies between the bounds, and NaN; what is below goes to the lower
/// bound and what is above to the upper one. It never turns two numbers round.
pub proof fn clamped_moves_only_outsiders(x: Single, y: Single, low: Single, high: Single)
    requires
        low.at_most(high),
    ensures
        low.at_most(x) && x.at_most(high) ==> x.clamped(low, high) == x,
        x.less(low) ==> x.clamped(low, high) == low,
        high.less(x) ==> x.clamped(low, high) == high,
        x.nan() ==> x.clamped(low, high) == x,
        x.at_most(y) ==> x.clamped(low, high).at_most(y.clamped(low, high)),
{
}

} // verus!
