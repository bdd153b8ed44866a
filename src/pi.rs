//! π to a number of decimal places.
use crate::assemble::{
    assemble, digit_text, fraction_text, lemma_decimal_digits, lemma_decimal_len,
    lemma_integer_part_three, scaled,
};
use crate::natural::decimal;
use crate::plan::{bits_for, iters_for, PrecisionPlan, MAX_DIGITS};
use crate::reduce::series_triple;
use crate::series::{
    denominator, B, lemma_denominator_near_leading, lemma_products_positive, range_triple, term_weight, A,
};
use vstd::arithmetic::power::{lemma_pow_positive, pow};
use vstd::prelude::*;

verus! {

/// The text of π to `digits` decimal places, truncated: the series summed
/// over `iters_for(digits)` terms and evaluated with `bits_for(digits)`
/// bits. It depends on the digit count alone.
pub open spec fn pi_text(digits: nat) -> Seq<char> {
    digit_text(range_triple(0, iters_for(digits) as int), digits, bits_for(digits))
}

/// The triple of a series prefix has a positive `P`, and a denominator
/// within a 63rd of `A P` (so positive too).
pub proof fn lemma_prefix_bounds(n: nat)
    ensures
        range_triple(0, n as int).p > 0,
        denominator(range_triple(0, n as int)) > 0,
        63 * (denominator(range_triple(0, n as int)) - A * range_triple(0, n as int).p)
            <= A * range_triple(0, n as int).p,
        -63 * (denominator(range_triple(0, n as int)) - A * range_triple(0, n as int).p)
            <= A * range_triple(0, n as int).p,
{
    let m = range_triple(0, n as int);
    lemma_products_positive(0, n as int);
    lemma_denominator_near_leading(n);
    assert(term_weight(n as int) > 0) by (nonlinear_arith)
        requires
            term_weight(n as int) == m.g * (A + B * n),
            m.g > 0,
    ;
}

/// For every digit count `d`, the text is `"3."` followed by exactly `d`
/// decimal digits.
pub proof fn pi_text_shape(d: nat)
    ensures
        pi_text(d).len() == d + 2,
        pi_text(d)[0] == '3',
        pi_text(d)[1] == '.',
        forall|i: int| 2 <= i < d + 2 ==> '0' <= #[trigger] pi_text(d)[i] <= '9',
{
    let m = range_triple(0, iters_for(d) as int);
    let prec = bits_for(d);
    lemma_prefix_bounds(iters_for(d));
    lemma_integer_part_three(m, d, prec);
    let v = scaled(m, d, prec) as nat;
    let u = pow(10, d) as nat;
    lemma_pow_positive(10, d);
    assert(v / u == 3) by (nonlinear_arith)
        requires
            3 * u <= v < 4 * u,
            u > 0,
    ;
    assert(decimal(3) =~= seq!['3']);
    let f = v % u;
    let digits = decimal(f);
    lemma_decimal_digits(f);
    if d >= 1 {
        lemma_decimal_len(f, d);
    }
    let tail = fraction_text(f, d);
    assert(tail.len() == d);
    assert(forall|i: int| 0 <= i < d ==> '0' <= #[trigger] tail[i] <= '9') by {
        if d >= 1 && digits.len() < d {
            assert forall|i: int| 0 <= i < d implies '0' <= #[trigger] tail[i] <= '9' by {
                let pad = (d - digits.len()) as int;
                if i >= pad {
                    assert(tail[i] == digits[i - pad]);
                }
            }
        }
    }
    assert(pi_text(d) =~= seq!['3', '.'] + tail);
}

/// π to `digits` decimal places, computed over `threads` lanes. The text is
/// the same for every number of lanes.
pub fn pi_digits(digits: u64, threads: u64) -> (r: String)
    requires
        digits <= MAX_DIGITS,
    ensures
        r@ == pi_text(digits as nat),
        r@.len() == digits + 2,
        r@[0] == '3',
        r@[1] == '.',
{
    proof {
        pi_text_shape(digits as nat);
    }
    let plan = PrecisionPlan::new(digits, threads);
    let t = series_triple(plan.iters_needed, plan.workers);
    proof {
        lemma_prefix_bounds(plan.iters_needed as nat);
    }
    assemble(&t, digits, plan.target_bit_precision)
}

/// π to `digits` decimal places, on one lane.
pub fn chudnovsky(digits: usize) -> (r: String)
    requires
        digits <= MAX_DIGITS,
    ensures
        r@ == pi_text(digits as nat),
        r@.len() == digits + 2,
        r@[0] == '3',
        r@[1] == '.',
{
    pi_digits(digits as u64, 1)
}

} // verus!
