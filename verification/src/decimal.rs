//! Decimal numbers: a sign, a magnitude of at most 96 bits, and how many of its digits stand
//! behind the point.

use vstd::prelude::*;

use crate::ladder::PriceKey;
use crate::text;

verus! {

/// The magnitudes end here.
pub const MAGNITUDE_END: u128 = 0x1_0000_0000_0000_0000_0000_0000;

/// The greatest number of digits behind the point.
pub const MAX_SCALE: u32 = 28;

/// A decimal number: `magnitude / 10^scale`, negated where `negative` is set. Numbers of one
/// value can differ in their scale.
#[derive(Clone, Copy, Debug, PartialEq, Eq, Structural)]
pub struct Decimal {
    pub negative: bool,
    pub magnitude: u128,
    pub scale: u32,
}

/// So many zeros.
pub open spec fn zeros(n: nat) -> Seq<char> {
    Seq::new(n, |i: int| '0')
}

impl Decimal {
    /// The numbers that there are.
    pub open spec fn in_range(self) -> bool {
        self.magnitude < MAGNITUDE_END && self.scale <= MAX_SCALE
    }

    /// The value, in units of the smallest step that any number has.
    pub open spec fn value(self) -> int {
        let units = self.magnitude * vstd::arithmetic::power::pow(10, (MAX_SCALE - self.scale) as nat);
        if self.negative {
            -units
        } else {
            units
        }
    }

    /// The digits, with zeros in front where there are too few for one before the point.
    pub open spec fn padded(self) -> Seq<char> {
        let raw = text::digits(self.magnitude as nat);
        if raw.len() <= self.scale {
            zeros((self.scale + 1 - raw.len()) as nat) + raw
        } else {
            raw
        }
    }

    /// The number as it is written: the sign of a negative one, the digits before the point, and,
    /// if there are any behind it, the point and those.
    pub open spec fn display(self) -> Seq<char> {
        let all = self.padded();
        let whole = all.len() - self.scale;
        let sign = if self.negative {
            seq!['-']
        } else {
            Seq::empty()
        };
        if self.scale == 0 {
            sign + all
        } else {
            sign + all.take(whole) + seq!['.'] + all.skip(whole)
        }
    }

    /// Whether this is zero, of whatever sign and scale.
    pub fn is_zero(&self) -> (r: bool)
        ensures
            r == (self.magnitude == 0),
    {
        self.magnitude == 0
    }

    /// `rust_decimal::Decimal`'s `<`. Trusted: it compares by value.
    #[verifier::external_body]
    fn less(&self, other: &Self) -> (r: bool)
        requires
            self.in_range(),
            other.in_range(),
        ensures
            r == (self.value() < other.value()),
    {
        let mut a = rust_decimal::Decimal::from_i128_with_scale(self.magnitude as i128, self.scale);
        a.set_sign_negative(self.negative);
        let mut b = rust_decimal::Decimal::from_i128_with_scale(other.magnitude as i128, other.scale);
        b.set_sign_negative(other.negative);
        a < b
    }

    /// `rust_decimal::Decimal`'s `to_string`. Trusted: it writes the number with its own scale.
    #[verifier::external_body]
    pub(crate) fn written(&self) -> (r: String)
        requires
            self.in_range(),
        ensures
            r@ == self.display(),
    {
        let mut a = rust_decimal::Decimal::from_i128_with_scale(self.magnitude as i128, self.scale);
        a.set_sign_negative(self.negative);
        a.to_string()
    }
}

impl PriceKey for Decimal {
    open spec fn rank(&self) -> int {
        self.value()
    }

    open spec fn valid(&self) -> bool {
        self.in_range()
    }

    fn below(&self, other: &Self) -> (r: bool) {
        self.less(other)
    }
}

} // verus!
