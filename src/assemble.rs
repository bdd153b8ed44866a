//! The final quotient and its decimal digits.
//!
//! With `(P, Q)` the triple of the whole series, π is
//! `53360 P sqrt(640320) / (Q + A P)`. The quotient is taken as a binary
//! fixed-point number with `prec` fractional bits, then truncated to the
//! requested number of decimal places.
use crate::integer::Integer;
use crate::natural::{decimal, is_isqrt, Natural};
use crate::series::{denominator, Triple, TripleModel, A, C};
use vstd::arithmetic::div_mod::lemma_fundamental_div_mod;
use vstd::arithmetic::power::{lemma_pow_positive, pow};
use vstd::prelude::*;

verus! {

/// `C / 12`, the factor in front of the square root.
pub const C_OVER_12: u64 = 53360;

/// The integer square root of `x`.
pub open spec fn isqrt(x: nat) -> nat {
    choose|r: nat| is_isqrt(x, r)
}

/// There is at most one integer square root.
pub proof fn lemma_isqrt_unique(x: nat, r: nat, s: nat)
    requires
        is_isqrt(x, r),
        is_isqrt(x, s),
    ensures
        r == s,
{
    if r < s {
        assert((r + 1) * (r + 1) <= s * s) by (nonlinear_arith)
            requires
                r + 1 <= s,
        ;
    } else if s < r {
        assert((s + 1) * (s + 1) <= r * r) by (nonlinear_arith)
            requires
                s + 1 <= r,
        ;
    }
}

/// π times `2^prec`, truncated: `53360 P isqrt(640320 * 4^prec) / (Q + A P)`.
pub open spec fn fixed_point(m: TripleModel, prec: nat) -> int {
    (C_OVER_12 * m.p * isqrt((C * (pow(2, prec) * pow(2, prec))) as nat)) / denominator(m)
}

/// The fixed-point value moved to `digits` decimal places, truncated.
pub open spec fn scaled(m: TripleModel, digits: nat, prec: nat) -> int {
    fixed_point(m, prec) * pow(10, digits) / pow(2, prec)
}

/// `s` with zeros in front up to `width` characters.
pub open spec fn zero_padded(s: Seq<char>, width: nat) -> Seq<char> {
    if s.len() >= width {
        s
    } else {
        Seq::new((width - s.len()) as nat, |i: int| '0') + s
    }
}

/// The fractional digits of `f`, zero-padded to `digits`; none for no
/// decimal places.
pub open spec fn fraction_text(f: nat, digits: nat) -> Seq<char> {
    if digits == 0 {
        Seq::empty()
    } else {
        zero_padded(decimal(f), digits)
    }
}

/// The text of a value with `digits` decimal places: the integer part,
/// a point, and the fractional digits.
pub open spec fn decimal_text(v: nat, digits: nat) -> Seq<char> {
    let unit = pow(10, digits) as nat;
    decimal(v / unit) + seq!['.'] + fraction_text(v % unit, digits)
}

/// The decimal text that the triple `m` gives.
pub open spec fn digit_text(m: TripleModel, digits: nat, prec: nat) -> Seq<char> {
    decimal_text(scaled(m, digits, prec) as nat, digits)
}

/// Every natural number has an integer square root.
pub proof fn lemma_isqrt_exists(x: nat)
    ensures
        is_isqrt(x, isqrt(x)),
    decreases x,
{
    if x == 0 {
        assert(0nat * 0nat == 0 && 1nat * 1nat == 1);
        assert(is_isqrt(0, 0));
    } else {
        lemma_isqrt_exists((x - 1) as nat);
        let r = isqrt((x - 1) as nat);
        if (r + 1) * (r + 1) <= x {
            assert(x < (r + 2) * (r + 2)) by (nonlinear_arith)
                requires
                    x - 1 < (r + 1) * (r + 1),
            ;
            assert(is_isqrt(x, r + 1));
        } else {
            assert(is_isqrt(x, r));
        }
    }
}

/// A number below `10^digits` has at most `digits` decimal digits, for
/// `digits >= 1`.
pub proof fn lemma_decimal_len(n: nat, digits: nat)
    requires
        digits >= 1,
        n < pow(10, digits),
    ensures
        decimal(n).len() <= digits,
    decreases digits,
{
    reveal(pow);
    if n >= 10 {
        if digits == 1 {
            assert(pow(10, 0) == 1);
        } else {
            lemma_pow_positive(10, (digits - 1) as nat);
            lemma_decimal_len(n / 10, (digits - 1) as nat);
        }
    }
}

/// Every character of a decimal representation is a digit.
pub proof fn lemma_decimal_digits(n: nat)
    ensures
        forall|i: int| 0 <= i < decimal(n).len() ==> '0' <= #[trigger] decimal(n)[i] <= '9',
    decreases n,
{
    if n >= 10 {
        lemma_decimal_digits(n / 10);
        assert forall|i: int| 0 <= i < decimal(n).len() implies '0' <= #[trigger] decimal(n)[i] <= '9' by {
            if i < decimal(n).len() - 1 {
                assert(decimal(n)[i] == decimal(n / 10)[i]);
            }
        }
    }
}

/// Where the denominator is within a 63rd of `A P`, the truncated
/// quotient has the integer part 3: `3 * 10^digits <= scaled < 4 * 10^digits`.
pub proof fn lemma_integer_part_three(m: TripleModel, digits: nat, prec: nat)
    requires
        m.p > 0,
        63 * (denominator(m) - A * m.p) <= A * m.p,
        -63 * (denominator(m) - A * m.p) <= A * m.p,
    ensures
        3 * pow(10, digits) <= scaled(m, digits, prec) < 4 * pow(10, digits),
{
    let u = pow(2, prec);
    let t = pow(10, digits);
    lemma_pow_positive(2, prec);
    lemma_pow_positive(10, digits);
    let radicand = (C * (u * u)) as nat;
    lemma_isqrt_exists(radicand);
    let s = isqrt(radicand);
    assert(s >= 800 * u) by (nonlinear_arith)
        requires
            radicand == C * (u * u),
            radicand < (s + 1) * (s + 1),
            u > 0,
            s >= 0,
    ;
    assert(s < 801 * u) by (nonlinear_arith)
        requires
            radicand == C * (u * u),
            s * s <= radicand,
            u > 0,
            s >= 0,
    ;
    let w = denominator(m);
    let x = C_OVER_12 * m.p * s;
    assert(w > 0);
    assert(3 * u * w <= x && x < 4 * u * w) by (nonlinear_arith)
        requires
            800 * u <= s < 801 * u,
            63 * w <= 64 * A * m.p,
            63 * w >= 62 * A * m.p,
            m.p > 0,
            u > 0,
            x == C_OVER_12 * m.p * s,
    ;
    let f = x / w;
    lemma_fundamental_div_mod(x, w);
    assert(3 * u <= f < 4 * u) by (nonlinear_arith)
        requires
            3 * u * w <= x < 4 * u * w,
            x == w * f + x % w,
            0 <= x % w < w,
            w > 0,
    ;
    assert(f == fixed_point(m, prec));
    let v = f * t / u;
    lemma_fundamental_div_mod(f * t, u);
    assert(3 * t <= v < 4 * t) by (nonlinear_arith)
        requires
            3 * u <= f < 4 * u,
            f * t == u * v + (f * t) % u,
            0 <= (f * t) % u < u,
            t > 0,
            u > 0,
    ;
}

/// Whether `t` meets what `assemble` needs: a positive `P` and a positive
/// denominator. Every series prefix does.
pub fn can_assemble(t: &Triple) -> (r: bool)
    ensures
        r == (t@.p > 0 && denominator(t@) > 0),
{
    let den = t.q.add(&t.p.mul(&Integer::from_u64(A)));
    assert(den@ == denominator(t@)) by (nonlinear_arith)
        requires
            den@ == t.q@ + t.p@ * A,
    ;
    t.p.is_positive() && den.is_positive()
}

/// The decimal text of `(t, digits, prec)`: π from the triple `t` of the
/// whole series, with `prec` bits of working precision, truncated to
/// `digits` decimal places.
pub fn assemble(t: &Triple, digits: u64, prec: u64) -> (r: String)
    requires
        t@.p > 0,
        denominator(t@) > 0,
    ensures
        r@ == digit_text(t@, digits as nat, prec as nat),
{
    let den = t.q.add(&t.p.mul(&Integer::from_u64(A)));
    assert(den@ == denominator(t@)) by (nonlinear_arith)
        requires
            den@ == t.q@ + t.p@ * A,
    ;
    let den = den.to_natural();
    let p = t.p.copy().to_natural();
    let scale = Natural::from_u64(2).pow(prec);
    let radicand = Natural::from_u64(C).mul(&scale.mul(&scale));
    let root = radicand.sqrt();
    proof {
        lemma_isqrt_unique(radicand@, root@, isqrt(radicand@));
        lemma_pow_positive(2, prec as nat);
        lemma_pow_positive(10, digits as nat);
    }
    let numerator = Natural::from_u64(C_OVER_12).mul(&p).mul(&root);
    let fixed = numerator.div(&den);
    let unit = Natural::from_u64(10).pow(digits);
    let value = fixed.mul(&unit).div(&scale);
    assert(value@ == scaled(t@, digits as nat, prec as nat));
    let whole = value.div(&unit);
    proof {
        lemma_fundamental_div_mod(value@ as int, unit@ as int);
        assert(whole@ * unit@ <= value@) by (nonlinear_arith)
            requires
                value@ == unit@ * (value@ / unit@) + value@ % unit@,
                whole@ == value@ / unit@,
                value@ % unit@ >= 0,
        ;
    }
    let fraction = value.sub(&whole.mul(&unit));
    assert(fraction@ == value@ % unit@);
    let mut text = whole.to_decimal();
    proof {
        reveal_strlit(".");
    }
    text.append(".");
    if digits > 0 {
        let fraction_digits = zero_pad(fraction.to_decimal(), digits);
        text.append(fraction_digits.as_str());
    }
    proof {
        let v = scaled(t@, digits as nat, prec as nat) as nat;
        let u = pow(10, digits as nat) as nat;
        assert(v == value@ && u == unit@);
    }
    assert(text@ =~= digit_text(t@, digits as nat, prec as nat));
    text
}

/// `s` with zeros in front up to `width` characters.
pub fn zero_pad(s: String, width: u64) -> (r: String)
    ensures
        r@ == zero_padded(s@, width as nat),
{
    let len = s.unicode_len() as u64;
    if len >= width {
        return s;
    }
    let mut text = String::new();
    let mut i: u64 = len;
    while i < width
        invariant
            len <= i <= width,
            text@ == Seq::new((i - len) as nat, |k: int| '0'),
        decreases width - i,
    {
        proof {
            reveal_strlit("0");
        }
        text.append("0");
        i = i + 1;
        assert(text@ =~= Seq::new((i - len) as nat, |k: int| '0'));
    }
    text.append(s.as_str());
    text
}

} // verus!
