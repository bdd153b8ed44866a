//! The Chudnovsky series as triples of integers over index ranges.
//!
//! For a half-open range `[a, b)` of term indices the triple `(P, Q, G)`
//! holds the product of the `p` factors, the partial sum scaled to an
//! integer, and the product of the `g` factors of the terms `a + 1 ..= b`.
//! Triples of adjacent ranges combine by one associative rule.
use crate::integer::Integer;
use vstd::prelude::*;

verus! {

/// The series' constant term.
pub const A: u64 = 13591409;

/// The series' linear coefficient.
pub const B: u64 = 545140134;

/// The constant whose cube drives the series' convergence.
pub const C: u64 = 640320;

/// `C^3 / 24`, an exact quotient.
pub const C3_OVER_24: u64 = 10939058860032000;

/// The largest term index that the splitter accepts.
pub const MAX_TERM: u64 = 0x0200_0000_0000_0000;

/// The value of a triple of huge integers.
pub struct TripleModel {
    pub p: int,
    pub q: int,
    pub g: int,
}

/// The `p` factor of term `k`: `k^3 * C^3 / 24`.
pub open spec fn p_term(k: int) -> int {
    k * k * k * (C3_OVER_24 as int)
}

/// The `g` factor of term `k`: `(6k - 5)(2k - 1)(6k - 1)`.
pub open spec fn g_term(k: int) -> int {
    (6 * k - 5) * (2 * k - 1) * (6 * k - 1)
}

/// `(-1)^k`.
pub open spec fn alternating(k: int) -> int {
    if k % 2 == 0 {
        1
    } else {
        -1
    }
}

/// The `q` part of term `k`: `(-1)^k * g(k) * (A + B k)`.
pub open spec fn q_term(k: int) -> int {
    alternating(k) * g_term(k) * (A + B * k)
}

/// The triple of the one-term range `[k - 1, k)`.
pub open spec fn leaf(k: int) -> TripleModel {
    TripleModel { p: p_term(k), q: q_term(k), g: g_term(k) }
}

/// The triple of the empty range, neutral for `combine`.
pub open spec fn identity() -> TripleModel {
    TripleModel { p: 1, q: 0, g: 1 }
}

/// The triple of `[a, b)` from those of `[a, m)` and `[m, b)`.
pub open spec fn combine(l: TripleModel, r: TripleModel) -> TripleModel {
    TripleModel { p: l.p * r.p, q: l.q * r.p + r.q * l.g, g: l.g * r.g }
}

/// The triple of the range `[a, b)`: the triples of its terms combined
/// from left to right (the empty range has the neutral triple).
pub open spec fn range_triple(a: int, b: int) -> TripleModel
    decreases b - a,
{
    if b <= a {
        identity()
    } else {
        combine(range_triple(a, b - 1), leaf(b))
    }
}

/// Combining triples is associative, so lanes may be merged in any tree
/// shape as long as their order is kept.
pub proof fn merge_associative(x: TripleModel, y: TripleModel, z: TripleModel)
    ensures
        combine(x, combine(y, z)) == combine(combine(x, y), z),
{
    assert(x.p * (y.p * z.p) == (x.p * y.p) * z.p) by (nonlinear_arith);
    assert(x.g * (y.g * z.g) == (x.g * y.g) * z.g) by (nonlinear_arith);
    let (xq, yq, zq, xg, yg, yp, zp) = (x.q, y.q, z.q, x.g, y.g, y.p, z.p);
    assert(xq * (yp * zp) == (xq * yp) * zp) by (nonlinear_arith);
    assert((yq * zp + zq * yg) * xg == (yq * xg) * zp + zq * (xg * yg)) by (nonlinear_arith);
    assert((xq * yp + yq * xg) * zp == (xq * yp) * zp + (yq * xg) * zp) by (nonlinear_arith);
}

/// The empty range's triple is neutral on both sides.
pub proof fn lemma_identity_neutral(x: TripleModel)
    ensures
        combine(x, identity()) == x,
        combine(identity(), x) == x,
{
}

/// The triple of a range is the combination of the triples of any two
/// adjacent ranges that make it up, wherever the split falls.
pub proof fn lemma_range_split(a: int, m: int, b: int)
    requires
        a <= m <= b,
    ensures
        range_triple(a, b) == combine(range_triple(a, m), range_triple(m, b)),
    decreases b - m,
{
    if b == m {
        lemma_identity_neutral(range_triple(a, m));
    } else {
        lemma_range_split(a, m, b - 1);
        merge_associative(range_triple(a, m), range_triple(m, b - 1), leaf(b));
    }
}

/// The denominator of the final quotient: the partial sum with the
/// series' leading term folded in, `Q + A P`.
pub open spec fn denominator(m: TripleModel) -> int {
    m.q + A * m.p
}

/// The unsigned size of term `k` relative to the range's products:
/// `G(0, k) (A + B k)`.
pub open spec fn term_weight(k: int) -> int {
    range_triple(0, k).g * (A + B * k)
}

/// The products `P` and `G` of every range of non-negative indices are
/// positive.
pub proof fn lemma_products_positive(a: int, b: int)
    requires
        0 <= a,
    ensures
        range_triple(a, b).p > 0,
        range_triple(a, b).g > 0,
    decreases b - a,
{
    if b > a {
        lemma_products_positive(a, b - 1);
        let (pp, gg) = (range_triple(a, b - 1).p, range_triple(a, b - 1).g);
        let (lp, lg) = (p_term(b), g_term(b));
        assert(lp > 0) by (nonlinear_arith)
            requires
                b >= 1,
                lp == b * b * b * C3_OVER_24,
        ;
        assert(lg > 0) by (nonlinear_arith)
            requires
                b >= 1,
                lg == (6 * b - 5) * (2 * b - 1) * (6 * b - 1),
        ;
        assert(pp * lp > 0 && gg * lg > 0) by (nonlinear_arith)
            requires
                pp > 0,
                gg > 0,
                lp > 0,
                lg > 0,
        ;
    }
}

/// Each term is far smaller than the one before it:
/// `64 g(k) (A + B k) < (A + B (k - 1)) p(k)`.
pub proof fn lemma_terms_shrink(k: int)
    requires
        k >= 1,
    ensures
        64 * (g_term(k) * (A + B * k)) < (A + B * (k - 1)) * p_term(k),
{
    let x = A + B * (k - 1);
    let y = A + B * k;
    let k3 = k * k * k;
    assert(y <= 42 * x);
    assert(k3 > 0) by (nonlinear_arith)
        requires
            k >= 1,
            k3 == k * k * k,
    ;
    assert(0 < g_term(k) <= 72 * k3) by (nonlinear_arith)
        requires
            k >= 1,
            k3 == k * k * k,
    ;
    assert(g_term(k) * y <= (72 * k3) * (42 * x)) by (nonlinear_arith)
        requires
            0 < g_term(k) <= 72 * k3,
            0 < y <= 42 * x,
    ;
    assert(64 * ((72 * k3) * (42 * x)) < x * (k3 * C3_OVER_24)) by (nonlinear_arith)
        requires
            k3 > 0,
            x > 0,
    ;
}

/// The denominator of every prefix `[0, n)` of the series stays within a
/// 63rd of its leading term `A P`: `63 |Q| <= A P - G (A + B n)`.
pub proof fn lemma_denominator_near_leading(n: nat)
    ensures
        63 * (denominator(range_triple(0, n as int)) - A * range_triple(0, n as int).p)
            <= A * range_triple(0, n as int).p - term_weight(n as int),
        -63 * (denominator(range_triple(0, n as int)) - A * range_triple(0, n as int).p)
            <= A * range_triple(0, n as int).p - term_weight(n as int),
    decreases n,
{
    if n > 0 {
        let b = n - 1;
        lemma_denominator_near_leading(b as nat);
        lemma_products_positive(0, b);
        lemma_terms_shrink(n as int);
        let prev = range_triple(0, b);
        let cur = range_triple(0, n as int);
        let w = denominator(prev);
        let dp = w - A * prev.p;
        let lp = p_term(n as int);
        let lg = g_term(n as int);
        let x = A + B * b;
        let y = A + B * n;
        let gg = prev.g;
        let sg = alternating(n as int);
        let e = gg * lg * y;
        assert(cur == combine(prev, leaf(n as int)));
        assert(denominator(cur) - A * cur.p == dp * lp + sg * e) by (nonlinear_arith)
            requires
                denominator(cur) == (prev.q * lp + (sg * lg * y) * gg) + A * (prev.p * lp),
                cur.p == prev.p * lp,
                dp == prev.q + A * prev.p - A * prev.p,
                e == gg * lg * y,
        ;
        assert(term_weight(n as int) == e) by (nonlinear_arith)
            requires
                term_weight(n as int) == (gg * lg) * y,
                e == gg * lg * y,
        ;
        assert(term_weight(b) == gg * x);
        assert(lp > 0 && lg > 0) by (nonlinear_arith)
            requires
                n >= 1,
                lp == n * n * n * C3_OVER_24,
                lg == (6 * n - 5) * (2 * n - 1) * (6 * n - 1),
        ;
        assert(e > 0) by (nonlinear_arith)
            requires
                gg > 0,
                lg > 0,
                y > 0,
                e == gg * lg * y,
        ;
        assert(64 * e < (gg * x) * lp) by (nonlinear_arith)
            requires
                64 * (lg * y) < x * lp,
                gg > 0,
                e == gg * lg * y,
        ;
        let ap = A * prev.p;
        assert(63 * (dp * lp) <= (ap - gg * x) * lp && -63 * (dp * lp) <= (ap - gg * x) * lp)
            by (nonlinear_arith)
            requires
                63 * dp <= ap - gg * x,
                -63 * dp <= ap - gg * x,
                lp > 0,
        ;
        assert(A * cur.p == ap * lp) by (nonlinear_arith)
            requires
                cur.p == prev.p * lp,
                ap == A * prev.p,
        ;
        assert(sg == 1 || sg == -1);
        assert(sg * e == e || sg * e == -e) by (nonlinear_arith)
            requires
                sg == 1 || sg == -1,
        ;
        assert((ap - gg * x) * lp == ap * lp - (gg * x) * lp) by (nonlinear_arith);
    } else {
        assert(range_triple(0, 0) == identity());
        assert(term_weight(0) == A);
    }
}

/// A triple of huge integers.
pub struct Triple {
    pub p: Integer,
    pub q: Integer,
    pub g: Integer,
}

impl View for Triple {
    type V = TripleModel;

    open spec fn view(&self) -> TripleModel {
        TripleModel { p: self.p@, q: self.q@, g: self.g@ }
    }
}

impl Triple {
    /// The triple of the empty range.
    pub fn identity() -> (r: Triple)
        ensures
            r@ == identity(),
    {
        Triple { p: Integer::from_u64(1), q: Integer::from_u64(0), g: Integer::from_u64(1) }
    }

    /// The triple of the one-term range `[b - 1, b)`, in closed form.
    pub fn leaf(b: u64) -> (r: Triple)
        requires
            1 <= b <= MAX_TERM,
        ensures
            r@ == leaf(b as int),
            r@ == range_triple(b - 1, b as int),
    {
        let k = Integer::from_u64(b);
        let k2 = k.mul(&k);
        let k3 = k2.mul(&k);
        let p = k3.mul(&Integer::from_u64(C3_OVER_24));
        let g1 = Integer::from_u64(6 * b - 5);
        let g2 = Integer::from_u64(2 * b - 1);
        let g3 = Integer::from_u64(6 * b - 1);
        let g12 = g1.mul(&g2);
        let g = g12.mul(&g3);
        let linear = Integer::from_u64(B).mul(&k).add(&Integer::from_u64(A));
        let unsigned_q = g.mul(&linear);
        let q = if b % 2 == 0 {
            unsigned_q
        } else {
            unsigned_q.negate()
        };
        let r = Triple { p, q, g };
        proof {
            let bi = b as int;
            assert(bi * B == B * bi) by (nonlinear_arith);
            assert(range_triple(bi - 1, bi - 1) == identity());
            lemma_identity_neutral(leaf(bi));
            assert(-(g@ * linear@) == -1 * g@ * linear@) by (nonlinear_arith);
        }
        r
    }

    /// A copy of the triple.
    pub fn copy(&self) -> (r: Triple)
        ensures
            r@ == self@,
    {
        Triple { p: self.p.copy(), q: self.q.copy(), g: self.g.copy() }
    }

    /// The triple of `[a, b)` from `self`, the triple of `[a, m)`, and
    /// `right`, the triple of `[m, b)`.
    pub fn merge(&self, right: &Triple) -> (r: Triple)
        ensures
            r@ == combine(self@, right@),
    {
        let p = self.p.mul(&right.p);
        let q = self.q.mul(&right.p).add(&right.q.mul(&self.g));
        let g = self.g.mul(&right.g);
        Triple { p, q, g }
    }
}

} // verus!
