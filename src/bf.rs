//! A binary floating-point number with a limb mantissa.
use crate::assemble::{zero_pad, zero_padded};
use crate::integer::{signed_decimal, Integer};
use crate::natural::{decimal, Natural};
use vstd::prelude::*;
use vstd::std_specs::bits::{axiom_u64_leading_zeros, u64_leading_zeros};

verus! {

/// The exponent that marks zero.
pub const BF_EXP_ZERO: isize = isize::MIN;

/// The exponent that marks an infinity.
pub const BF_EXP_INF: isize = isize::MAX - 1;

/// The exponent that marks NaN.
pub const BF_EXP_NAN: isize = isize::MAX;

/// How a result is rounded to the precision asked for.
pub enum Rounding {
    RoundToNearest,
    RoundToZero,
    RoundDown,
    RoundUp,
    RoundToNearestAwayFromZero,
    RoundAwayFromZero,
    RoundNondeterministic,
}

/// The limbs' text, most significant first, each in decimal zero-padded
/// to sixteen digits.
pub open spec fn limbs_text(limbs: Seq<u64>) -> Seq<char>
    decreases limbs.len(),
{
    if limbs.len() == 0 {
        Seq::empty()
    } else {
        zero_padded(decimal(limbs.last() as nat), 16) + limbs_text(limbs.drop_last())
    }
}

/// The text of a number with these parts: `NaN`; or an optional minus
/// sign followed by `0`, `Inf`, or `0x0.<limbs>p<exponent>`; then a line
/// break.
pub open spec fn big_float_text(sign: isize, expn: isize, limbs: Seq<u64>) -> Seq<char> {
    let body = if expn == BF_EXP_NAN {
        seq!['N', 'a', 'N']
    } else {
        let minus = if sign < 0 {
            seq!['-']
        } else {
            Seq::empty()
        };
        let magnitude = if expn == BF_EXP_ZERO {
            seq!['0']
        } else if expn == BF_EXP_INF {
            seq!['I', 'n', 'f']
        } else {
            seq!['0', 'x', '0', '.'] + limbs_text(limbs) + seq!['p'] + signed_decimal(expn as int)
        };
        minus + magnitude
    };
    body.push('\n')
}

/// A sign, an exponent and a mantissa of 64-bit limbs, least significant
/// first, read as the binary fraction `0.tab[n-1] ... tab[0]` times
/// `2^expn`. Zero, the infinities and NaN have no limbs and a marker
/// exponent.
pub struct BigFloat {
    sign: isize,
    expn: isize,
    tab: Vec<u64>,
}

impl BigFloat {
    /// The sign: zero or positive for non-negative numbers.
    pub closed spec fn sign_spec(&self) -> isize {
        self.sign
    }

    /// The exponent.
    pub closed spec fn exponent_spec(&self) -> isize {
        self.expn
    }

    /// The mantissa's limbs, least significant first.
    pub closed spec fn limbs_spec(&self) -> Seq<u64> {
        self.tab@
    }

    /// Positive zero.
    pub fn new() -> (r: BigFloat)
        ensures
            r.sign_spec() == 0,
            r.exponent_spec() == BF_EXP_ZERO,
            r.limbs_spec().len() == 0,
    {
        BigFloat { sign: 0, expn: BF_EXP_ZERO, tab: Vec::new() }
    }

    /// Sets the number to `a`, exactly: for `a > 0` one limb whose top bit
    /// is set, and the exponent that brings it back to `a`.
    pub fn set_ui(&mut self, a: usize)
        ensures
            final(self).sign_spec() == 0,
            a == 0 ==> final(self).exponent_spec() == BF_EXP_ZERO && final(self).limbs_spec().len() == 0,
            a != 0 ==> {
                &&& 1 <= final(self).exponent_spec() <= 64
                &&& final(self).limbs_spec().len() == 1
                &&& final(self).limbs_spec()[0] >= 0x8000_0000_0000_0000u64
                &&& final(self).limbs_spec()[0] == (a as u64) << ((64 - final(self).exponent_spec()) as u64)
                &&& final(self).limbs_spec()[0] >> ((64 - final(self).exponent_spec()) as u64) == a as u64
            },
    {
        self.sign = 0;
        if a == 0 {
            self.expn = BF_EXP_ZERO;
            self.resize(0);
        } else {
            self.resize(1);
            let x = a as u64;
            let shift = x.leading_zeros();
            proof {
                axiom_u64_leading_zeros(x);
            }
            let lz = shift as u64;
            assert(lz < 64);
            assert((x >> ((63 - lz) as u64)) & 1 != 0);
            assert(x >> ((64 - lz) as u64) == 0);
            let m = x << lz;
            assert(lz < 64 && x >> ((64 - lz) as u64) == 0 ==> (x << lz) >> lz == x) by (bit_vector);
            assert(lz < 64 && (x >> ((63 - lz) as u64)) & 1 != 0 ==> (x << lz) >= 0x8000_0000_0000_0000u64)
                by (bit_vector);
            self.tab.set(0, m);
            self.expn = 64 - shift as isize;
        }
    }

    /// Resizes the mantissa to `len` limbs, keeping those that stay and
    /// filling new ones with zeros.
    fn resize(&mut self, len: usize)
        ensures
            final(self).sign == old(self).sign,
            final(self).expn == old(self).expn,
            final(self).tab@.len() == len,
            forall|i: int| 0 <= i < len && i < old(self).tab@.len() ==> final(self).tab@[i] == old(self).tab@[i],
            forall|i: int| old(self).tab@.len() <= i < len ==> final(self).tab@[i] == 0,
    {
        if len != self.tab.len() {
            self.tab.resize(len, 0);
        }
    }

    /// The number as text.
    pub fn to_text(&self) -> (r: String)
        ensures
            r@ == big_float_text(self.sign_spec(), self.exponent_spec(), self.limbs_spec()),
    {
        proof {
            reveal_strlit("NaN");
            reveal_strlit("-");
            reveal_strlit("0");
            reveal_strlit("Inf");
            reveal_strlit("0x0.");
            reveal_strlit("p");
            reveal_strlit("\n");
        }
        let mut text = String::new();
        if self.expn == BF_EXP_NAN {
            text.append("NaN");
        } else {
            if self.sign < 0 {
                text.append("-");
            }
            if self.expn == BF_EXP_ZERO {
                text.append("0");
            } else if self.expn == BF_EXP_INF {
                text.append("Inf");
            } else {
                text.append("0x0.");
                let ghost head = text@;
                let ghost limbs = self.tab@;
                let mut i: usize = self.tab.len();
                assert(limbs.subrange(0, i as int) =~= limbs);
                while i > 0
                    invariant
                        i <= limbs.len(),
                        limbs == self.tab@,
                        text@ + limbs_text(limbs.subrange(0, i as int)) == head + limbs_text(limbs),
                    decreases i,
                {
                    let ghost before = text@;
                    let part = zero_pad(Natural::from_u64(self.tab[i - 1]).to_decimal(), 16);
                    text.append(part.as_str());
                    proof {
                        let s = limbs.subrange(0, i as int);
                        assert(s.drop_last() =~= limbs.subrange(0, i - 1));
                        assert(limbs_text(s) == part@ + limbs_text(limbs.subrange(0, i - 1)));
                        assert(text@ + limbs_text(limbs.subrange(0, i - 1)) =~= before + limbs_text(s));
                    }
                    i = i - 1;
                }
                assert(limbs.subrange(0, 0) =~= Seq::<u64>::empty());
                assert(text@ =~= head + limbs_text(limbs));
                text.append("p");
                let e = self.expn;
                let exponent = if e < 0 {
                    Integer::from_u64((-(e + 1)) as u64 + 1).negate()
                } else {
                    Integer::from_u64(e as u64)
                };
                text.append(exponent.to_decimal().as_str());
            }
        }
        text.append("\n");
        assert(text@ =~= big_float_text(self.sign_spec(), self.exponent_spec(), self.limbs_spec()));
        text
    }

    /// The sign.
    pub fn sign(&self) -> (r: isize)
        ensures
            r == self.sign_spec(),
    {
        self.sign
    }

    /// The exponent.
    pub fn exponent(&self) -> (r: isize)
        ensures
            r == self.exponent_spec(),
    {
        self.expn
    }

    /// The mantissa's limbs, least significant first.
    pub fn limbs(&self) -> (r: &Vec<u64>)
        ensures
            r@ == self.limbs_spec(),
    {
        &self.tab
    }
}

} // verus!
