//! Lanes over the term range and their order-preserving reduction.
use crate::series::{combine, identity, lemma_identity_neutral, lemma_range_split, merge_associative, range_triple, Triple, TripleModel, MAX_TERM};
use crate::splitter::lane_triple;
use vstd::prelude::*;

verus! {

/// The triples of a sequence combined from left to right.
pub open spec fn combine_all(s: Seq<TripleModel>) -> TripleModel
    decreases s.len(),
{
    if s.len() == 0 {
        identity()
    } else {
        combine(combine_all(s.drop_last()), s.last())
    }
}

/// The triples of the lanes `[bounds[i], bounds[i + 1])`.
pub open spec fn lane_models(bounds: Seq<int>) -> Seq<TripleModel> {
    Seq::new((bounds.len() - 1) as nat, |i: int| range_triple(bounds[i], bounds[i + 1]))
}

/// Whether `bounds` is a non-empty sequence that never decreases.
pub open spec fn ascending(bounds: Seq<int>) -> bool {
    bounds.len() >= 1 && forall|i: int, j: int| 0 <= i <= j < bounds.len() ==> bounds[i] <= bounds[j]
}

/// Reducing a concatenation is combining the reductions of its parts.
pub proof fn lemma_combine_all_append(s: Seq<TripleModel>, t: Seq<TripleModel>)
    ensures
        combine_all(s + t) == combine(combine_all(s), combine_all(t)),
    decreases t.len(),
{
    if t.len() == 0 {
        assert(s + t =~= s);
        lemma_identity_neutral(combine_all(s));
    } else {
        assert((s + t).drop_last() =~= s + t.drop_last());
        lemma_combine_all_append(s, t.drop_last());
        merge_associative(combine_all(s), combine_all(t.drop_last()), t.last());
    }
}

/// However the range `[bounds[0], bounds[last])` is cut into contiguous
/// lanes, the lanes' triples combined in order give the triple of the whole
/// range: the result does not depend on the number of lanes.
pub proof fn lanes_combine_to_whole(bounds: Seq<int>)
    requires
        ascending(bounds),
    ensures
        combine_all(lane_models(bounds)) == range_triple(bounds[0], bounds.last()),
    decreases bounds.len(),
{
    if bounds.len() == 1 {
        assert(lane_models(bounds).len() == 0);
    } else {
        let init = bounds.drop_last();
        lanes_combine_to_whole(init);
        assert(lane_models(bounds).drop_last() =~= lane_models(init));
        lemma_range_split(bounds[0], init.last(), bounds.last());
    }
}

/// The bounds of `lanes` near-equal lanes over `[0, iters)`: lane `i`
/// starts at `i * (iters / lanes)`, and the last one takes the remainder.
pub open spec fn lane_bound(iters: nat, lanes: nat, i: nat) -> int {
    if i >= lanes {
        iters as int
    } else {
        (i * (iters / lanes)) as int
    }
}

/// The bounds of `lanes` lanes that partition `[0, iters)`.
pub fn lane_bounds(iters: u64, lanes: u64) -> (r: Vec<u64>)
    requires
        1 <= lanes <= iters,
    ensures
        r@.len() == lanes + 1,
        forall|i: int| 0 <= i <= lanes ==> r@[i] == lane_bound(iters as nat, lanes as nat, i as nat),
        forall|i: int, j: int| 0 <= i < j <= lanes ==> r@[i] < r@[j],
{
    let width = iters / lanes;
    let mut r: Vec<u64> = Vec::new();
    let mut i: u64 = 0;
    assert(width * lanes <= iters) by (nonlinear_arith)
        requires
            width == iters / lanes,
            lanes >= 1,
    ;
    assert(width >= 1) by (nonlinear_arith)
        requires
            width == iters / lanes,
            1 <= lanes <= iters,
    ;
    while i < lanes
        invariant
            width == iters / lanes,
            width * lanes <= iters,
            width >= 1,
            i <= lanes,
            r@.len() == i,
            forall|k: int| 0 <= k < i ==> r@[k] == k * width,
        decreases lanes - i,
    {
        assert(i * width <= lanes * width) by (nonlinear_arith)
            requires
                i <= lanes,
        ;
        r.push(i * width);
        i = i + 1;
    }
    r.push(iters);
    assert forall|a: int, b: int| 0 <= a < b <= lanes implies r@[a] < r@[b] by {
        if b < lanes {
            assert(a * width < b * width) by (nonlinear_arith)
                requires
                    a < b,
                    width >= 1,
            ;
        } else {
            assert(a * width < lanes * width) by (nonlinear_arith)
                requires
                    a < lanes,
                    width >= 1,
            ;
        }
    }
    r
}

/// The views of a slice of triples.
pub open spec fn models_of(s: Seq<Triple>) -> Seq<TripleModel> {
    s.map_values(|t: Triple| t@)
}

/// The triples of `lanes[lo..hi]` combined in order, by a balanced tree:
/// each half is reduced on its own, then the two results are merged.
pub fn reduce(lanes: &Vec<Triple>, lo: usize, hi: usize) -> (r: Triple)
    requires
        lo < hi <= lanes@.len(),
    ensures
        r@ == combine_all(models_of(lanes@.subrange(lo as int, hi as int))),
    decreases hi - lo,
{
    let ghost s = models_of(lanes@.subrange(lo as int, hi as int));
    if hi - lo == 1 {
        let l = &lanes[lo];
        let r = l.copy();
        proof {
            assert(s.drop_last() =~= Seq::<TripleModel>::empty());
            assert(combine_all(s.drop_last()) == identity());
            assert(s.last() == l@);
            lemma_identity_neutral(l@);
        }
        r
    } else {
        let mid = lo + (hi - lo) / 2;
        let left = reduce(lanes, lo, mid);
        let right = reduce(lanes, mid, hi);
        proof {
            assert(s =~= models_of(lanes@.subrange(lo as int, mid as int)) + models_of(
                lanes@.subrange(mid as int, hi as int),
            ));
            lemma_combine_all_append(
                models_of(lanes@.subrange(lo as int, mid as int)),
                models_of(lanes@.subrange(mid as int, hi as int)),
            );
        }
        left.merge(&right)
    }
}

/// The bounds as integers.
pub open spec fn bounds_model(bounds: Seq<u64>) -> Seq<int> {
    bounds.map_values(|x: u64| x as int)
}

/// The triple of each lane `[bounds[i], bounds[i + 1])`, in lane order.
pub fn lane_results(bounds: &Vec<u64>) -> (r: Vec<Triple>)
    requires
        bounds@.len() >= 1,
        forall|i: int, j: int| 0 <= i < j < bounds@.len() ==> bounds@[i] < bounds@[j],
        bounds@.last() <= MAX_TERM,
    ensures
        models_of(r@) == lane_models(bounds_model(bounds@)),
{
    let mut r: Vec<Triple> = Vec::new();
    let mut i: usize = 0;
    let n = bounds.len() - 1;
    while i < n
        invariant
            n == bounds@.len() - 1,
            i <= n,
            r@.len() == i,
            forall|i: int, j: int| 0 <= i < j < bounds@.len() ==> bounds@[i] < bounds@[j],
            bounds@.last() <= MAX_TERM,
            forall|k: int| 0 <= k < i ==> (#[trigger] r@[k])@ == range_triple(bounds@[k] as int, bounds@[k + 1] as int),
        decreases n - i,
    {
        assert(bounds@[i + 1] <= bounds@.last());
        let t = lane_triple(bounds[i], bounds[i + 1]);
        r.push(t);
        i = i + 1;
    }
    assert(models_of(r@) =~= lane_models(bounds_model(bounds@)));
    r
}

/// The triple of `[0, iters)`, computed over `lanes` lanes (clamped to
/// between one and `iters`) and reduced in lane order.
pub fn series_triple(iters: u64, lanes: u64) -> (r: Triple)
    requires
        iters <= MAX_TERM,
    ensures
        r@ == range_triple(0, iters as int),
{
    if iters == 0 {
        return Triple::identity();
    }
    let workers = if lanes == 0 {
        1
    } else if lanes > iters {
        iters
    } else {
        lanes
    };
    let bounds = lane_bounds(iters, workers);
    let results = lane_results(&bounds);
    assert(models_of(results@).len() == results@.len());
    let r = reduce(&results, 0, results.len());
    proof {
        let b = bounds_model(bounds@);
        assert(results@.subrange(0, results@.len() as int) =~= results@);
        assert(b[0] == 0);
        assert(b.last() == iters);
        lanes_combine_to_whole(b);
    }
    r
}

} // verus!
