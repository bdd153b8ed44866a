//! Binary splitting over a per-lane stack of triples.
//!
//! A lane's stack is allocated once, with one slot per recursion level, and
//! each call writes its result into its own slot, using the next one as
//! scratch for the right half.
use crate::series::{identity, lemma_range_split, range_triple, Triple, TripleModel, MAX_TERM};
use vstd::arithmetic::power2::{lemma2_to64, lemma_pow2_pos, lemma_pow2_strictly_increases, lemma_pow2_unfold, pow2};
use vstd::prelude::*;

verus! {

/// The number of stack slots that splitting a range of `n` terms uses:
/// `ceil(log2(n)) + 1` for `n >= 1`.
pub open spec fn levels(n: nat) -> nat
    decreases n,
{
    if n <= 1 {
        1
    } else {
        1 + levels(((n + 1) / 2) as nat)
    }
}

/// More terms never need fewer levels.
pub proof fn lemma_levels_monotone(n: nat, m: nat)
    requires
        n <= m,
    ensures
        levels(n) <= levels(m),
    decreases m,
{
    if n > 1 {
        lemma_levels_monotone(((n + 1) / 2) as nat, ((m + 1) / 2) as nat);
    }
}

/// The split point of `[a, b)`: `a + floor((b - a) * 0.5224)`. The left part
/// is the larger because later terms cost more to multiply.
pub open spec fn split_point(a: int, b: int) -> int {
    a + (b - a) * 5224 / 10000
}

/// An arena of triples indexed by recursion depth.
pub struct SplitStack {
    slots: Vec<Triple>,
}

impl SplitStack {
    /// The values of the slots, from the bottom of the stack.
    pub closed spec fn models(&self) -> Seq<TripleModel> {
        self.slots@.map_values(|t: Triple| t@)
    }

    /// A stack of `depth` slots, each holding the empty range's triple.
    pub fn new(depth: u64) -> (r: SplitStack)
        ensures
            r.models().len() == depth,
            forall|i: int| 0 <= i < depth ==> r.models()[i] == identity(),
    {
        let mut slots: Vec<Triple> = Vec::new();
        let mut i: u64 = 0;
        while i < depth
            invariant
                i <= depth,
                slots@.len() == i,
                forall|k: int| 0 <= k < i ==> (#[trigger] slots@[k])@ == identity(),
            decreases depth - i,
        {
            slots.push(Triple::identity());
            i = i + 1;
        }
        SplitStack { slots }
    }

    /// Computes the triple of `[a, b)` into slot `top`. Slots below `top`
    /// keep their values; those above it are scratch.
    pub fn split(&mut self, a: u64, b: u64, top: usize)
        requires
            a < b <= MAX_TERM,
            top + levels((b - a) as nat) <= old(self).models().len(),
        ensures
            final(self).models().len() == old(self).models().len(),
            final(self).models()[top as int] == range_triple(a as int, b as int),
            forall|i: int| 0 <= i < top ==> final(self).models()[i] == old(self).models()[i],
        decreases b - a,
    {
        if b - a == 1 {
            self.slots.set(top, Triple::leaf(b));
            proof {
                assert(self.models() =~= old(self).models().update(top as int, range_triple(a as int, b as int)));
            }
        } else {
            let m = a + (((b - a) as u128) * 5224 / 10000) as u64;
            let ghost n = (b - a) as nat;
            assert(m == split_point(a as int, b as int));
            assert(a < m < b);
            assert(levels(((n + 1) / 2) as nat) >= 1);
            assert(levels(n) >= 2);
            let len = self.slots.len();
            assert(top + 1 < len);
            assert(b - m <= (n + 1) / 2);
            proof {
                lemma_levels_monotone((m - a) as nat, n);
                lemma_levels_monotone((b - m) as nat, ((n + 1) / 2) as nat);
            }
            self.split(a, m, top);
            let ghost mid = self.models();
            self.split(m, b, top + 1);
            let ghost after = self.models();
            let merged = self.slots[top].merge(&self.slots[top + 1]);
            self.slots.set(top, merged);
            proof {
                lemma_range_split(a as int, m as int, b as int);
                assert(self.models() =~= after.update(top as int, merged@));
            }
        }
    }

    /// Takes the triple out of the bottom slot.
    pub fn into_bottom(self) -> (r: Triple)
        requires
            self.models().len() > 0,
        ensures
            r@ == self.models()[0],
    {
        let mut slots = self.slots;
        slots.swap_remove(0)
    }
}

/// The number of levels of splitting `n` terms, `levels(n)`.
pub fn levels_of(n: u64) -> (r: u64)
    ensures
        r == levels(n as nat),
{
    let mut d: u64 = 1;
    let mut k: u64 = n;
    proof {
        lemma2_to64();
        assert((k - 1) * pow2(0) == k - 1);
    }
    while k > 1
        invariant
            1 <= d <= 65,
            d + levels(k as nat) == levels(n as nat) + 1,
            (k - 1) * pow2((d - 1) as nat) < pow2(64),
        decreases k,
    {
        proof {
            let w = pow2((d - 1) as nat);
            lemma_pow2_pos((d - 1) as nat);
            assert(w <= (k - 1) * w) by (nonlinear_arith)
                requires
                    k > 1,
                    w > 0,
            ;
            if d > 64 {
                lemma_pow2_strictly_increases(64, (d - 1) as nat);
            }
            lemma_pow2_unfold(d as nat);
            let h = (k - k / 2 - 1) as int;
            assert(h * (2 * w) <= (k - 1) * w) by (nonlinear_arith)
                requires
                    h * 2 <= k - 1,
                    w > 0,
            ;
        }
        k = k - k / 2;
        d = d + 1;
    }
    d
}

/// The triple of the lane `[a, b)`, computed on a stack of its own.
pub fn lane_triple(a: u64, b: u64) -> (r: Triple)
    requires
        a < b <= MAX_TERM,
    ensures
        r@ == range_triple(a as int, b as int),
{
    let depth = levels_of(b - a);
    let mut stack = SplitStack::new(depth);
    stack.split(a, b, 0);
    stack.into_bottom()
}

} // verus!
