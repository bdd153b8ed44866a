//! Signed integers of any size, as a sign and a magnitude.
use crate::natural::{decimal, Natural};
use vstd::prelude::*;

verus! {

/// The decimal text of `v`: a minus sign for negative values, then the
/// digits of its magnitude.
pub open spec fn signed_decimal(v: int) -> Seq<char> {
    if v < 0 {
        seq!['-'] + decimal((-v) as nat)
    } else {
        decimal(v as nat)
    }
}

/// A signed integer of any size.
pub struct Integer {
    negative: bool,
    magnitude: Natural,
}

impl View for Integer {
    type V = int;

    closed spec fn view(&self) -> int {
        if self.negative {
            -(self.magnitude@ as int)
        } else {
            self.magnitude@ as int
        }
    }
}

impl Integer {
    /// The number `x`.
    pub fn from_u64(x: u64) -> (r: Integer)
        ensures
            r@ == x as int,
    {
        Integer { negative: false, magnitude: Natural::from_u64(x) }
    }

    /// The magnitude of a non-negative integer.
    pub fn to_natural(self) -> (r: Natural)
        requires
            self@ >= 0,
        ensures
            r@ as int == self@,
    {
        self.magnitude
    }

    /// A copy of the number.
    pub fn copy(&self) -> (r: Integer)
        ensures
            r@ == self@,
    {
        Integer { negative: self.negative, magnitude: self.magnitude.copy() }
    }

    /// The decimal text of the number.
    pub fn to_decimal(&self) -> (r: String)
        ensures
            r@ == signed_decimal(self@),
    {
        let digits = self.magnitude.to_decimal();
        let zero = Natural::from_u64(0);
        if self.negative && zero.lt(&self.magnitude) {
            let mut r = String::from_str("-");
            proof {
                reveal_strlit("-");
            }
            r.append(digits.as_str());
            assert(r@ =~= signed_decimal(self@));
            r
        } else {
            digits
        }
    }

    /// Whether the number is greater than zero.
    pub fn is_positive(&self) -> (r: bool)
        ensures
            r == (self@ > 0),
    {
        let zero = Natural::from_u64(0);
        !self.negative && zero.lt(&self.magnitude)
    }

    /// `-self`.
    pub fn negate(self) -> (r: Integer)
        ensures
            r@ == -self@,
    {
        Integer { negative: !self.negative, magnitude: self.magnitude }
    }

    /// `self * other`.
    pub fn mul(&self, other: &Integer) -> (r: Integer)
        ensures
            r@ == self@ * other@,
    {
        let m = self.magnitude.mul(&other.magnitude);
        let r = Integer { negative: self.negative != other.negative, magnitude: m };
        proof {
            let (x, y) = (self.magnitude@ as int, other.magnitude@ as int);
            assert((-x) * y == -(x * y) && x * (-y) == -(x * y) && (-x) * (-y) == x * y)
                by (nonlinear_arith);
        }
        r
    }

    /// `self + other`.
    pub fn add(&self, other: &Integer) -> (r: Integer)
        ensures
            r@ == self@ + other@,
    {
        if self.negative == other.negative {
            Integer { negative: self.negative, magnitude: self.magnitude.add(&other.magnitude) }
        } else if other.magnitude.lt(&self.magnitude) {
            Integer { negative: self.negative, magnitude: self.magnitude.sub(&other.magnitude) }
        } else {
            Integer { negative: other.negative, magnitude: other.magnitude.sub(&self.magnitude) }
        }
    }
}

} // verus!
