//! IEEE 754 binary64 numbers, held by their bit patterns.
//!
//! Prices, amounts and sizes arrive from the exchange as binary64 numbers. The rules of this
//! library only compare them, order them and flip their signs, and all of that is exact integer
//! work on the bit pattern. Rounded arithmetic is left to the program around the library.

use vstd::prelude::*;

use crate::ladder::PriceKey;

verus! {

/// One binary64 number. Two values are `==` when their bit patterns are; the numeric comparisons
/// are the methods below.
#[derive(Clone, Copy, Debug, PartialEq, Eq, Structural)]
pub struct Binary64 {
    pub bits: u64,
}

/// The magnitude of the infinities. A greater magnitude is that of a NaN.
pub const INFINITY_MAGNITUDE: u64 = 0x7ff0_0000_0000_0000;

/// The weight of the sign bit.
pub const SIGN_WEIGHT: u64 = 0x8000_0000_0000_0000;

impl Binary64 {
    /// The bit pattern without its sign bit. Among numbers that are not NaN it grows with the
    /// absolute value.
    pub open spec fn magnitude(self) -> int {
        if self.bits >= SIGN_WEIGHT {
            self.bits - SIGN_WEIGHT
        } else {
            self.bits as int
        }
    }

    pub open spec fn is_nan_spec(self) -> bool {
        self.magnitude() > INFINITY_MAGNITUDE
    }

    /// The place of the number in the total order that a price ladder uses: numbers by value,
    /// the two zeros at one place, and every NaN at one place above everything else.
    pub open spec fn place(self) -> int {
        if self.is_nan_spec() {
            INFINITY_MAGNITUDE + 1
        } else if self.bits >= SIGN_WEIGHT {
            -self.magnitude()
        } else {
            self.magnitude()
        }
    }

    /// `self < other` as binary64 numbers: false whenever one of them is NaN.
    pub open spec fn lt_spec(self, other: Self) -> bool {
        !self.is_nan_spec() && !other.is_nan_spec() && self.place() < other.place()
    }

    /// `self >= other` as binary64 numbers: false whenever one of them is NaN.
    pub open spec fn ge_spec(self, other: Self) -> bool {
        !self.is_nan_spec() && !other.is_nan_spec() && self.place() >= other.place()
    }

    /// The number with its sign bit flipped.
    pub open spec fn negated_spec(self) -> Self {
        if self.bits >= SIGN_WEIGHT {
            Binary64 { bits: (self.bits - SIGN_WEIGHT) as u64 }
        } else {
            Binary64 { bits: (self.bits + SIGN_WEIGHT) as u64 }
        }
    }

    /// The greater of two numbers, where a NaN gives way to the other argument.
    pub open spec fn max_spec(self, other: Self) -> Self {
        if self.is_nan_spec() || self.lt_spec(other) {
            other
        } else {
            self
        }
    }

    /// The number `0.0`.
    pub open spec fn zero_spec() -> Self {
        Binary64 { bits: 0 }
    }

    pub fn zero() -> (r: Self)
        ensures
            r == Self::zero_spec(),
    {
        Binary64 { bits: 0 }
    }

    pub fn from_bits(bits: u64) -> (r: Self)
        ensures
            r.bits == bits,
    {
        Binary64 { bits }
    }

    pub fn is_nan(self) -> (r: bool)
        ensures
            r == self.is_nan_spec(),
    {
        if self.bits >= SIGN_WEIGHT {
            self.bits - SIGN_WEIGHT > INFINITY_MAGNITUDE
        } else {
            self.bits > INFINITY_MAGNITUDE
        }
    }

    fn place_of(self) -> (r: i64)
        ensures
            r == self.place(),
    {
        if self.is_nan() {
            0x7ff0_0000_0000_0001
        } else if self.bits >= SIGN_WEIGHT {
            -((self.bits - SIGN_WEIGHT) as i64)
        } else {
            self.bits as i64
        }
    }

    /// `self < other`.
    pub fn lt(self, other: Self) -> (r: bool)
        ensures
            r == self.lt_spec(other),
    {
        !self.is_nan() && !other.is_nan() && self.place_of() < other.place_of()
    }

    /// `self > other`.
    pub fn gt(self, other: Self) -> (r: bool)
        ensures
            r == other.lt_spec(self),
    {
        other.lt(self)
    }

    /// `self >= other`.
    pub fn ge(self, other: Self) -> (r: bool)
        ensures
            r == self.ge_spec(other),
    {
        !self.is_nan() && !other.is_nan() && self.place_of() >= other.place_of()
    }

    /// `-self`.
    pub fn negated(self) -> (r: Self)
        ensures
            r == self.negated_spec(),
    {
        if self.bits >= SIGN_WEIGHT {
            Binary64 { bits: self.bits - SIGN_WEIGHT }
        } else {
            Binary64 { bits: self.bits + SIGN_WEIGHT }
        }
    }

    /// The greater of two numbers; a NaN gives way to the other argument.
    pub fn max(self, other: Self) -> (r: Self)
        ensures
            r == self.max_spec(other),
    {
        if self.is_nan() || self.lt(other) {
            other
        } else {
            self
        }
    }
}

impl PriceKey for Binary64 {
    open spec fn rank(&self) -> int {
        self.place()
    }

    open spec fn valid(&self) -> bool {
        true
    }

    fn below(&self, other: &Self) -> (r: bool) {
        self.place_of() < other.place_of()
    }
}

/// Flipping the sign twice gives the number back.
pub proof fn law_negated_twice(x: Binary64)
    ensures
        x.negated_spec().negated_spec() == x,
{
}

/// Flipping the sign of a number mirrors its place in the order; a NaN stays a NaN.
pub proof fn law_negated_place(x: Binary64)
    ensures
        x.negated_spec().is_nan_spec() == x.is_nan_spec(),
        !x.is_nan_spec() ==> x.negated_spec().place() == -x.place(),
{
}

/// Which bit patterns are no numbers.
pub proof fn law_nan(x: Binary64)
    ensures
        x.is_nan_spec() <==> 0x7ff0_0000_0000_0000 < x.bits < 0x8000_0000_0000_0000
            || 0xfff0_0000_0000_0000 < x.bits,
{
}

/// How numbers compare, by their bits: positive ones as their patterns do, negative ones the other
/// way round, and a negative one is less than a positive one, but that the two zeros are equal.
/// What is no number is neither less nor greater nor equal.
pub proof fn law_comparison(a: Binary64, b: Binary64)
    ensures
        a.is_nan_spec() || b.is_nan_spec() ==> !a.lt_spec(b) && !a.ge_spec(b),
        !a.is_nan_spec() && !b.is_nan_spec() ==> {
            let sign = 0x8000_0000_0000_0000u64;
            &&& a.ge_spec(b) == !a.lt_spec(b)
            &&& a.bits < sign && b.bits < sign ==> (a.lt_spec(b) <==> a.bits < b.bits)
            &&& a.bits >= sign && b.bits >= sign ==> (a.lt_spec(b) <==> a.bits > b.bits)
            &&& a.bits >= sign && b.bits < sign ==> (a.lt_spec(b) <==> !(a.bits == sign && b.bits
                == 0))
            &&& a.bits < sign && b.bits >= sign ==> !a.lt_spec(b)
        },
{
}

/// On a price ladder numbers stand as they compare, and what is no number above all of them, at one
/// place.
pub proof fn law_rank(a: Binary64, b: Binary64)
    ensures
        !a.is_nan_spec() && !b.is_nan_spec() ==> (a.rank() < b.rank() <==> a.lt_spec(b)),
        !a.is_nan_spec() && b.is_nan_spec() ==> a.rank() < b.rank(),
        a.is_nan_spec() && b.is_nan_spec() ==> a.rank() == b.rank(),
{
}

/// The greater of two numbers is one of them, and less than neither; what is no number gives way.
pub proof fn law_max(a: Binary64, b: Binary64)
    ensures
        a.is_nan_spec() ==> a.max_spec(b) == b,
        b.is_nan_spec() && !a.is_nan_spec() ==> a.max_spec(b) == a,
        a.max_spec(b) == a || a.max_spec(b) == b,
        !a.is_nan_spec() && !b.is_nan_spec() ==> a.max_spec(b).ge_spec(a) && a.max_spec(b).ge_spec(
            b,
        ),
        Binary64::zero_spec().bits == 0,
{
}

} // verus!
