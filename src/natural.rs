//! Unsigned integers of any size, held as base 2^32 limbs.
//!
//! The arithmetic itself is done by `num_bigint::BigUint`; each call stands
//! behind one small trusted function whose contract states the exact result
//! over the value of the limbs.
use num_bigint::BigUint;
use vstd::arithmetic::power::pow;
use vstd::prelude::*;

verus! {

/// The value of little-endian base 2^32 limbs.
pub open spec fn limbs_value(s: Seq<u32>) -> nat
    decreases s.len(),
{
    if s.len() == 0 {
        0
    } else {
        s[0] as nat + 0x1_0000_0000 * limbs_value(s.drop_first())
    }
}

/// The decimal character of a digit below ten.
pub open spec fn digit_char(d: nat) -> char {
    ((d + 48) as u8) as char
}

/// The decimal representation of `n`, most significant digit first,
/// without leading zeros (`"0"` for zero).
pub open spec fn decimal(n: nat) -> Seq<char>
    decreases n,
{
    if n < 10 {
        seq![digit_char(n)]
    } else {
        decimal(n / 10).push(digit_char(n % 10))
    }
}

/// The integer square root: the `r` with `r * r <= x < (r + 1) * (r + 1)`.
pub open spec fn is_isqrt(x: nat, r: nat) -> bool {
    r * r <= x < (r + 1) * (r + 1)
}

/// A natural number of any size.
pub struct Natural {
    limbs: Vec<u32>,
}

impl View for Natural {
    type V = nat;

    closed spec fn view(&self) -> nat {
        limbs_value(self.limbs@)
    }
}

impl Natural {
    /// The number `x`.
    pub fn from_u64(x: u64) -> (r: Natural)
        ensures
            r@ == x as nat,
    {
        let lo = (x % 0x1_0000_0000) as u32;
        let hi = (x / 0x1_0000_0000) as u32;
        let r = Natural { limbs: vec![lo, hi] };
        proof {
            let s = r.limbs@;
            assert(s.drop_first().drop_first().len() == 0);
            assert(limbs_value(s.drop_first()) == hi as nat) by {
                reveal_with_fuel(limbs_value, 2);
            }
        }
        r
    }

    /// A copy of the number.
    pub fn copy(&self) -> (r: Natural)
        ensures
            r@ == self@,
    {
        let r = Natural { limbs: self.limbs.clone() };
        assert(r.limbs@ =~= self.limbs@);
        r
    }

    /// Relies on `BigUint + BigUint`: the exact sum.
    #[verifier::external_body]
    pub(crate) fn add(&self, other: &Natural) -> (r: Natural)
        ensures
            r@ == self@ + other@,
    {
        Natural { limbs: (BigUint::from_slice(&self.limbs) + BigUint::from_slice(&other.limbs)).to_u32_digits() }
    }

    /// Relies on `BigUint - BigUint`: the exact difference, which panics
    /// when it would be negative.
    #[verifier::external_body]
    pub(crate) fn sub(&self, other: &Natural) -> (r: Natural)
        requires
            other@ <= self@,
        ensures
            r@ == self@ - other@,
    {
        Natural { limbs: (BigUint::from_slice(&self.limbs) - BigUint::from_slice(&other.limbs)).to_u32_digits() }
    }

    /// Relies on `BigUint * BigUint`: the exact product.
    #[verifier::external_body]
    pub(crate) fn mul(&self, other: &Natural) -> (r: Natural)
        ensures
            r@ == self@ * other@,
    {
        Natural { limbs: (BigUint::from_slice(&self.limbs) * BigUint::from_slice(&other.limbs)).to_u32_digits() }
    }

    /// Relies on `BigUint / BigUint`: the truncated quotient, which panics
    /// on a zero divisor.
    #[verifier::external_body]
    pub(crate) fn div(&self, other: &Natural) -> (r: Natural)
        requires
            other@ > 0,
        ensures
            r@ == self@ / other@,
    {
        Natural { limbs: (BigUint::from_slice(&self.limbs) / BigUint::from_slice(&other.limbs)).to_u32_digits() }
    }

    /// Relies on `BigUint < BigUint`: the order of the values.
    #[verifier::external_body]
    pub(crate) fn lt(&self, other: &Natural) -> (r: bool)
        ensures
            r == (self@ < other@),
    {
        BigUint::from_slice(&self.limbs) < BigUint::from_slice(&other.limbs)
    }

    /// Relies on `BigUint::sqrt`: the truncated principal square root.
    #[verifier::external_body]
    pub(crate) fn sqrt(&self) -> (r: Natural)
        ensures
            is_isqrt(self@, r@),
    {
        Natural { limbs: BigUint::from_slice(&self.limbs).sqrt().to_u32_digits() }
    }

    /// Relies on `num_traits::Pow<u64>` for `&BigUint`: `self` raised to `e`.
    #[verifier::external_body]
    pub(crate) fn pow(&self, e: u64) -> (r: Natural)
        ensures
            r@ == pow(self@ as int, e as nat),
    {
        Natural { limbs: num_traits::Pow::pow(&BigUint::from_slice(&self.limbs), e).to_u32_digits() }
    }

    /// Relies on `BigUint::to_str_radix` with radix ten: the decimal digits.
    #[verifier::external_body]
    pub(crate) fn to_decimal(&self) -> (r: String)
        ensures
            r@ == decimal(self@),
    {
        BigUint::from_slice(&self.limbs).to_str_radix(10)
    }
}

} // verus!
